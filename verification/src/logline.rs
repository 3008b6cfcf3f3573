//! The miner's log lines: `[YYYY-MM-DD HH:MM:SS] message`, one per line, as
//! printed and appended to `miner.log`.
use vstd::prelude::*;
use vstd::string::StringExecFns;
use crate::config::push_char;

verus! {

/// A local date and time, as the clock gives it for a log line.
#[derive(Clone, Copy, Debug, PartialEq, Eq)]
pub struct LogTime {
    pub year: i32,
    pub month: u32,
    pub day: u32,
    pub hour: u32,
    pub minute: u32,
    /// 60 during a leap second.
    pub second: u32,
}

/// The ASCII digit of `d` (`0 <= d < 10`).
pub open spec fn digit_char(d: nat) -> char {
    (48 + d) as char
}

/// The decimal digits of `n`, without leading zeros.
pub open spec fn decimal_text(n: nat) -> Seq<char>
    decreases n,
{
    if n < 10 {
        seq![digit_char(n)]
    } else {
        decimal_text(n / 10).push(digit_char(n % 10))
    }
}

/// The decimal digits of `n`, zero-padded to at least four.
pub open spec fn padded4(n: nat) -> Seq<char> {
    if n < 10 {
        seq!['0', '0', '0'] + decimal_text(n)
    } else if n < 100 {
        seq!['0', '0'] + decimal_text(n)
    } else if n < 1000 {
        seq!['0'] + decimal_text(n)
    } else {
        decimal_text(n)
    }
}

/// Two decimal digits of `v` (`v < 100`), the tens first.
pub open spec fn two_digits(v: nat) -> Seq<char> {
    seq![digit_char(v / 10), digit_char(v % 10)]
}

/// The year as chrono's `%Y` writes it: four zero-padded digits for years
/// 0 to 9999; outside that range a sign, then at least four zero-padded digits.
pub open spec fn year_text(y: i32) -> Seq<char> {
    if 0 <= y <= 9999 {
        padded4(y as nat)
    } else if y < 0 {
        seq!['-'] + padded4((-y) as nat)
    } else {
        seq!['+'] + padded4(y as nat)
    }
}

/// chrono's `"%Y-%m-%d %H:%M:%S"`: the year, then two-digit month, day,
/// hour, minute and second.
pub open spec fn timestamp_text(t: LogTime) -> Seq<char> {
    year_text(t.year) + seq!['-'] + two_digits(t.month as nat) + seq!['-'] + two_digits(
        t.day as nat,
    ) + seq![' '] + two_digits(t.hour as nat) + seq![':'] + two_digits(t.minute as nat) + seq![
        ':',
    ] + two_digits(t.second as nat)
}

// ---------------------------------------------------------------------------
// What the texts say
// ---------------------------------------------------------------------------

/// An ASCII decimal digit.
pub open spec fn is_digit_char(c: char) -> bool {
    '0' <= c <= '9'
}

/// The number that a text of decimal digits spells, most significant first.
pub open spec fn digits_value(s: Seq<char>) -> int
    decreases s.len(),
{
    if s.len() == 0 {
        0
    } else {
        digits_value(s.drop_last()) * 10 + (s.last() as int - 48)
    }
}

/// A two-digit field is the decimal writing of its value: two digits, the
/// tens then the units.
pub proof fn lemma_two_digits(v: nat)
    requires
        v < 100,
    ensures
        two_digits(v).len() == 2,
        is_digit_char(two_digits(v)[0]) && is_digit_char(two_digits(v)[1]),
        (two_digits(v)[0] as int - 48) * 10 + (two_digits(v)[1] as int - 48) == v,
        digits_value(two_digits(v)) == v,
{
    let t = two_digits(v);
    assert(t.drop_last() =~= seq![t[0]]);
    assert(seq![t[0]].drop_last() =~= Seq::<char>::empty());
    let u = seq![t[0]];
    assert(u.last() == t[0]);
    assert(digits_value(u.drop_last()) == 0);
    assert(digits_value(u) == t[0] as int - 48);
    assert(digits_value(t) == digits_value(seq![t[0]]) * 10 + (t[1] as int - 48));
}

/// The decimal text of `n` is a run of digits that spells `n`, with no
/// leading zero, of one digit below 10, two below 100, three below 1000 and
/// at least four from 1000 on.
pub proof fn lemma_decimal_text(n: nat)
    ensures
        forall|i: int| 0 <= i < decimal_text(n).len() ==> is_digit_char(#[trigger] decimal_text(n)[i]),
        digits_value(decimal_text(n)) == n,
        n > 0 ==> decimal_text(n)[0] != '0',
        n < 10 ==> decimal_text(n).len() == 1,
        10 <= n < 100 ==> decimal_text(n).len() == 2,
        100 <= n < 1000 ==> decimal_text(n).len() == 3,
        1000 <= n ==> decimal_text(n).len() >= 4,
    decreases n,
{
    if n < 10 {
        assert(decimal_text(n).drop_last() =~= Seq::<char>::empty());
        assert(digits_value(decimal_text(n)) == digits_value(Seq::<char>::empty()) * 10 + (
        decimal_text(n).last() as int - 48));
    } else {
        let p = decimal_text(n / 10);
        lemma_decimal_text(n / 10);
        assert(decimal_text(n).drop_last() =~= p);
        assert(decimal_text(n)[0] == p[0]);
        assert(digits_value(decimal_text(n)) == digits_value(p) * 10 + (decimal_text(n).last() as int
            - 48));
        assert(decimal_text(n).last() as int - 48 == n % 10);
    }
}

proof fn lemma_leading_zero(s: Seq<char>)
    ensures
        digits_value(seq!['0'] + s) == digits_value(s),
    decreases s.len(),
{
    let z = seq!['0'] + s;
    if s.len() == 0 {
        assert(z.drop_last() =~= Seq::<char>::empty());
        assert(digits_value(z) == digits_value(Seq::<char>::empty()) * 10 + (z.last() as int - 48));
    } else {
        lemma_leading_zero(s.drop_last());
        assert(z.drop_last() =~= seq!['0'] + s.drop_last());
        assert(z.last() == s.last());
        assert(digits_value(z) == digits_value(z.drop_last()) * 10 + (z.last() as int - 48));
    }
}

/// The zero-padded text of `n` is a run of at least four digits that spells
/// `n`; it is longer than four only where `n` needs more digits, and then it
/// has no leading zero.
pub proof fn lemma_padded4(n: nat)
    ensures
        padded4(n).len() >= 4,
        forall|i: int| 0 <= i < padded4(n).len() ==> is_digit_char(#[trigger] padded4(n)[i]),
        digits_value(padded4(n)) == n,
        padded4(n).len() > 4 ==> padded4(n)[0] != '0',
        n < 10000 ==> padded4(n).len() == 4,
{
    let d = decimal_text(n);
    lemma_decimal_text(n);
    if n < 1000 {
        lemma_leading_zero(d);
        lemma_leading_zero(seq!['0'] + d);
        lemma_leading_zero(seq!['0'] + (seq!['0'] + d));
        assert(seq!['0', '0', '0'] + d =~= seq!['0'] + (seq!['0'] + (seq!['0'] + d)));
        assert(seq!['0', '0'] + d =~= seq!['0'] + (seq!['0'] + d));
    }
    if 1000 <= n < 10000 {
        let p = decimal_text(n / 10);
        lemma_decimal_text(n / 10);
        assert(d.len() == p.len() + 1);
    }
}

/// The year text: four digits spelling the year for years 0 to 9999; a minus
/// sign and the digits of the year's magnitude before year 0; a plus sign and
/// the digits of the year after 9999.
pub proof fn lemma_year_text(y: i32)
    ensures
        0 <= y <= 9999 ==> year_text(y).len() == 4 && digits_value(year_text(y)) == y,
        y < 0 ==> year_text(y)[0] == '-' && digits_value(year_text(y).drop_first()) == -y,
        y > 9999 ==> year_text(y)[0] == '+' && digits_value(year_text(y).drop_first()) == y,
        y < 0 || y > 9999 ==> year_text(y).len() >= 5,
        forall|i: int|
            (if 0 <= y <= 9999 { 0int } else { 1int }) <= i < year_text(y).len() ==> is_digit_char(
                #[trigger] year_text(y)[i],
            ),
{
    if 0 <= y <= 9999 {
        lemma_padded4(y as nat);
    } else if y < 0 {
        let p = padded4((-y) as nat);
        lemma_padded4((-y) as nat);
        assert(year_text(y).drop_first() =~= p);
        assert forall|i: int| 1 <= i < year_text(y).len() implies is_digit_char(
            #[trigger] year_text(y)[i],
        ) by {
            assert(year_text(y)[i] == p[i - 1]);
        }
    } else {
        let p = padded4(y as nat);
        lemma_padded4(y as nat);
        assert(year_text(y).drop_first() =~= p);
        assert forall|i: int| 1 <= i < year_text(y).len() implies is_digit_char(
            #[trigger] year_text(y)[i],
        ) by {
            assert(year_text(y)[i] == p[i - 1]);
        }
    }
}

/// The layout of a timestamp: the year text, then `-MM-DD HH:MM:SS`, each
/// pair of digits spelling its field.
pub proof fn lemma_timestamp_layout(t: LogTime)
    requires
        t.month < 100,
        t.day < 100,
        t.hour < 100,
        t.minute < 100,
        t.second < 100,
    ensures
        ({
            let s = timestamp_text(t);
            let n = year_text(t.year).len() as int;
            &&& s.len() == n + 15
            &&& s.subrange(0, n) == year_text(t.year)
            &&& s[n] == '-' && s[n + 3] == '-' && s[n + 6] == ' ' && s[n + 9] == ':' && s[n + 12]
                == ':'
            &&& forall|k: int|
                0 <= k < 5 ==> is_digit_char(#[trigger] s[n + 1 + 3 * k]) && is_digit_char(
                    s[n + 2 + 3 * k],
                )
            &&& (s[n + 1] as int - 48) * 10 + (s[n + 2] as int - 48) == t.month
            &&& (s[n + 4] as int - 48) * 10 + (s[n + 5] as int - 48) == t.day
            &&& (s[n + 7] as int - 48) * 10 + (s[n + 8] as int - 48) == t.hour
            &&& (s[n + 10] as int - 48) * 10 + (s[n + 11] as int - 48) == t.minute
            &&& (s[n + 13] as int - 48) * 10 + (s[n + 14] as int - 48) == t.second
        }),
{
    let s = timestamp_text(t);
    let n = year_text(t.year).len() as int;
    lemma_two_digits(t.month as nat);
    lemma_two_digits(t.day as nat);
    lemma_two_digits(t.hour as nat);
    lemma_two_digits(t.minute as nat);
    lemma_two_digits(t.second as nat);
    assert(s.subrange(0, n) =~= year_text(t.year));
    assert forall|k: int| 0 <= k < 5 implies is_digit_char(#[trigger] s[n + 1 + 3 * k])
        && is_digit_char(s[n + 2 + 3 * k]) by {
        if k == 0 {
            assert(s[n + 1] == two_digits(t.month as nat)[0]);
            assert(s[n + 2] == two_digits(t.month as nat)[1]);
        } else if k == 1 {
            assert(s[n + 4] == two_digits(t.day as nat)[0]);
            assert(s[n + 5] == two_digits(t.day as nat)[1]);
        } else if k == 2 {
            assert(s[n + 7] == two_digits(t.hour as nat)[0]);
            assert(s[n + 8] == two_digits(t.hour as nat)[1]);
        } else if k == 3 {
            assert(s[n + 10] == two_digits(t.minute as nat)[0]);
            assert(s[n + 11] == two_digits(t.minute as nat)[1]);
        } else {
            assert(s[n + 13] == two_digits(t.second as nat)[0]);
            assert(s[n + 14] == two_digits(t.second as nat)[1]);
        }
    }
    assert(s[n + 1] == two_digits(t.month as nat)[0]);
    assert(s[n + 2] == two_digits(t.month as nat)[1]);
    assert(s[n + 4] == two_digits(t.day as nat)[0]);
    assert(s[n + 5] == two_digits(t.day as nat)[1]);
    assert(s[n + 7] == two_digits(t.hour as nat)[0]);
    assert(s[n + 8] == two_digits(t.hour as nat)[1]);
    assert(s[n + 10] == two_digits(t.minute as nat)[0]);
    assert(s[n + 11] == two_digits(t.minute as nat)[1]);
    assert(s[n + 13] == two_digits(t.second as nat)[0]);
    assert(s[n + 14] == two_digits(t.second as nat)[1]);
}

fn digit_of(d: u32) -> (c: char)
    requires
        d < 10,
    ensures
        c == digit_char(d as nat),
{
    match d {
        0 => '0',
        1 => '1',
        2 => '2',
        3 => '3',
        4 => '4',
        5 => '5',
        6 => '6',
        7 => '7',
        8 => '8',
        _ => '9',
    }
}

fn push_decimal(s: &mut String, n: u32)
    ensures
        final(s)@ == old(s)@ + decimal_text(n as nat),
    decreases n,
{
    if n >= 10 {
        push_decimal(s, n / 10);
    }
    push_char(s, digit_of(n % 10));
    assert(s@ =~= old(s)@ + decimal_text(n as nat));
}

fn push_padded4(s: &mut String, n: u32)
    ensures
        final(s)@ == old(s)@ + padded4(n as nat),
{
    if n < 10 {
        push_char(s, '0');
        push_char(s, '0');
        push_char(s, '0');
    } else if n < 100 {
        push_char(s, '0');
        push_char(s, '0');
    } else if n < 1000 {
        push_char(s, '0');
    }
    push_decimal(s, n);
    assert(s@ =~= old(s)@ + padded4(n as nat));
}

fn push_two_digits(s: &mut String, v: u32)
    requires
        v < 100,
    ensures
        final(s)@ == old(s)@ + two_digits(v as nat),
{
    push_char(s, digit_of(v / 10));
    push_char(s, digit_of(v % 10));
    assert(s@ =~= old(s)@ + two_digits(v as nat));
}

fn push_year(s: &mut String, y: i32)
    ensures
        final(s)@ == old(s)@ + year_text(y),
{
    if 0 <= y && y <= 9999 {
        push_padded4(s, y as u32);
    } else if y < 0 {
        let magnitude: u32 = (0i64 - y as i64) as u32;
        push_char(s, '-');
        push_padded4(s, magnitude);
    } else {
        push_char(s, '+');
        push_padded4(s, y as u32);
    }
    assert(s@ =~= old(s)@ + year_text(y));
}

/// The timestamp of a log line, as chrono's `"%Y-%m-%d %H:%M:%S"` gives it.
pub fn timestamp(t: &LogTime) -> (r: String)
    requires
        1 <= t.month <= 12,
        1 <= t.day <= 31,
        t.hour <= 23,
        t.minute <= 59,
        t.second <= 60,
    ensures
        r@ == timestamp_text(*t),
{
    let mut s = String::new();
    push_year(&mut s, t.year);
    push_char(&mut s, '-');
    push_two_digits(&mut s, t.month);
    push_char(&mut s, '-');
    push_two_digits(&mut s, t.day);
    push_char(&mut s, ' ');
    push_two_digits(&mut s, t.hour);
    push_char(&mut s, ':');
    push_two_digits(&mut s, t.minute);
    push_char(&mut s, ':');
    push_two_digits(&mut s, t.second);
    assert(s@ =~= timestamp_text(*t));
    s
}

/// The log line of a message: the timestamp in square brackets, a space, the
/// message and a line break.
pub fn log_line(t: &LogTime, msg: &str) -> (r: String)
    requires
        1 <= t.month <= 12,
        1 <= t.day <= 31,
        t.hour <= 23,
        t.minute <= 59,
        t.second <= 60,
    ensures
        r@ == seq!['['] + timestamp_text(*t) + seq![']', ' '] + msg@ + seq!['\n'],
{
    let stamp = timestamp(t);
    let mut line = String::new();
    push_char(&mut line, '[');
    line.append(stamp.as_str());
    push_char(&mut line, ']');
    push_char(&mut line, ' ');
    line.append(msg);
    push_char(&mut line, '\n');
    assert(line@ =~= seq!['['] + timestamp_text(*t) + seq![']', ' '] + msg@ + seq!['\n']);
    line
}

} // verus!
