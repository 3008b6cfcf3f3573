//! The miner's settings: the list of RPC endpoints and the priority fee.
use vstd::prelude::*;
use vstd::string::StringSliceAdditionalSpecFns;

verus! {

/// The priority fee, in gwei, used when none is set or the setting is not a number.
pub const DEFAULT_PRIORITY_FEE_GWEI: u64 = 2;

// ---------------------------------------------------------------------------
// Unsigned decimal numbers, as `u64`'s `FromStr` reads them
// ---------------------------------------------------------------------------

/// An ASCII decimal digit.
pub open spec fn is_ascii_digit(b: u8) -> bool {
    48 <= b <= 57
}

/// The number that a string of ASCII digits spells.
pub open spec fn decimal_value(d: Seq<u8>) -> nat
    decreases d.len(),
{
    if d.len() == 0 {
        0
    } else {
        decimal_value(d.drop_last()) * 10 + (d.last() - 48) as nat
    }
}

/// The digits of an unsigned number: the text without one leading `+`.
pub open spec fn unsigned_digits(b: Seq<u8>) -> Seq<u8> {
    if b.len() > 0 && b[0] == 43 {
        b.drop_first()
    } else {
        b
    }
}

/// Whether the text is an unsigned 64-bit decimal number: an optional `+`,
/// then at least one ASCII digit and nothing else, of a value that fits.
pub open spec fn parses_as_u64(b: Seq<u8>) -> bool {
    let d = unsigned_digits(b);
    &&& d.len() > 0
    &&& forall|i: int| 0 <= i < d.len() ==> is_ascii_digit(#[trigger] d[i])
    &&& decimal_value(d) <= u64::MAX
}

/// The value of a text for which `parses_as_u64` holds.
pub open spec fn parsed_u64(b: Seq<u8>) -> u64 {
    decimal_value(unsigned_digits(b)) as u64
}

/// Reading one more digit multiplies the value by ten and adds the digit;
/// an empty text is worth 0.
pub proof fn lemma_decimal_value_push(d: Seq<u8>, c: u8)
    requires
        is_ascii_digit(c),
    ensures
        decimal_value(d.push(c)) == decimal_value(d) * 10 + (c - 48),
        decimal_value(Seq::<u8>::empty()) == 0,
        unsigned_digits(seq![43u8] + d) == d,
        d.len() == 0 || d[0] != 43 ==> unsigned_digits(d) == d,
{
    assert(d.push(c).drop_last() =~= d);
    assert((seq![43u8] + d).drop_first() =~= d);
}

proof fn lemma_decimal_prefix_le(d: Seq<u8>, k: int)
    requires
        0 <= k <= d.len(),
        forall|i: int| 0 <= i < d.len() ==> is_ascii_digit(#[trigger] d[i]),
    ensures
        decimal_value(d.subrange(0, k)) <= decimal_value(d),
    decreases d.len(),
{
    if k < d.len() {
        let p = d.drop_last();
        lemma_decimal_prefix_le(p, k);
        assert(p.subrange(0, k) =~= d.subrange(0, k));
    } else {
        assert(d.subrange(0, k) =~= d);
    }
}

/// Reads an unsigned 64-bit decimal number, as `str::parse::<u64>` does.
pub fn parse_u64(s: &str) -> (r: Option<u64>)
    ensures
        r == (if parses_as_u64(s.spec_bytes()) {
            Some(parsed_u64(s.spec_bytes()))
        } else {
            None
        }),
{
    let b = s.as_bytes();
    let n = b.len();
    let start: usize = if n > 0 && b[0] == 43 {
        1
    } else {
        0
    };
    let ghost d = unsigned_digits(b@);
    assert(d =~= b@.subrange(start as int, n as int));
    if start >= n {
        return None;
    }
    let mut acc: u64 = 0;
    let mut i: usize = start;
    while i < n
        invariant
            b@ == s.spec_bytes(),
            n == b@.len(),
            start <= i <= n,
            d == b@.subrange(start as int, n as int),
            d == unsigned_digits(b@),
            forall|j: int| 0 <= j < i - start ==> is_ascii_digit(#[trigger] d[j]),
            acc == decimal_value(d.subrange(0, i - start)),
        decreases n - i,
    {
        let c = b[i];
        assert(c == d[i - start]);
        if c < 48 || c > 57 {
            return None;
        }
        let ghost k = (i - start) as int;
        assert(d.subrange(0, k + 1).drop_last() =~= d.subrange(0, k));
        let digit = (c - 48) as u64;
        let next = match acc.checked_mul(10) {
            Some(t) => t.checked_add(digit),
            None => None,
        };
        match next {
            Some(v) => {
                acc = v;
            },
            None => {
                proof {
                    if forall|j: int| 0 <= j < d.len() ==> is_ascii_digit(#[trigger] d[j]) {
                        lemma_decimal_prefix_le(d, k + 1);
                    }
                }
                return None;
            },
        }
        i = i + 1;
    }
    assert(d.subrange(0, (n - start) as int) =~= d);
    Some(acc)
}

/// The priority fee in gwei: the setting read as a number, or the default of
/// 2 gwei where the setting is missing or is not an unsigned 64-bit number.
pub fn priority_fee_gwei(setting: Option<&str>) -> (r: u64)
    ensures
        r == match setting {
            Some(s) => if parses_as_u64(s.spec_bytes()) {
                parsed_u64(s.spec_bytes())
            } else {
                DEFAULT_PRIORITY_FEE_GWEI
            },
            None => DEFAULT_PRIORITY_FEE_GWEI,
        },
{
    match setting {
        Some(s) => match parse_u64(s) {
            Some(v) => v,
            None => DEFAULT_PRIORITY_FEE_GWEI,
        },
        None => DEFAULT_PRIORITY_FEE_GWEI,
    }
}

// ---------------------------------------------------------------------------
// The list of RPC endpoints
// ---------------------------------------------------------------------------

/// The characters that `char::is_whitespace` accepts: those of Unicode's
/// `White_Space` property.
pub open spec fn is_white_space(c: char) -> bool {
    let u = c as u32;
    ||| 0x9 <= u <= 0xd
    ||| u == 0x20
    ||| u == 0x85
    ||| u == 0xa0
    ||| u == 0x1680
    ||| 0x2000 <= u <= 0x200a
    ||| u == 0x2028
    ||| u == 0x2029
    ||| u == 0x202f
    ||| u == 0x205f
    ||| u == 0x3000
}

/// The pieces of `s` between commas, as `str::split(',')` yields them: one
/// more piece than there are commas, empty pieces included.
pub open spec fn comma_pieces(s: Seq<char>) -> Seq<Seq<char>>
    decreases s.len(),
{
    if s.len() == 0 {
        seq![Seq::<char>::empty()]
    } else {
        let p = comma_pieces(s.drop_last());
        if s.last() == ',' {
            p.push(Seq::<char>::empty())
        } else {
            p.update(p.len() - 1, p.last().push(s.last()))
        }
    }
}

/// `s` without its leading white space.
pub open spec fn trim_start(s: Seq<char>) -> Seq<char>
    decreases s.len(),
{
    if s.len() > 0 && is_white_space(s[0]) {
        trim_start(s.drop_first())
    } else {
        s
    }
}

/// `s` without its trailing white space.
pub open spec fn trim_end(s: Seq<char>) -> Seq<char>
    decreases s.len(),
{
    if s.len() > 0 && is_white_space(s.last()) {
        trim_end(s.drop_last())
    } else {
        s
    }
}

/// `s` without leading and trailing white space, as `str::trim` gives it.
pub open spec fn trimmed(s: Seq<char>) -> Seq<char> {
    trim_end(trim_start(s))
}

/// The pieces joined again, with a comma between two neighbours.
pub open spec fn join_with_commas(p: Seq<Seq<char>>) -> Seq<char>
    decreases p.len(),
{
    if p.len() <= 1 {
        if p.len() == 0 {
            Seq::empty()
        } else {
            p[0]
        }
    } else {
        join_with_commas(p.drop_last()) + seq![','] + p.last()
    }
}

/// The endpoints of the setting: its comma-separated pieces, each trimmed.
pub open spec fn endpoint_list(s: Seq<char>) -> Seq<Seq<char>> {
    comma_pieces(s).map_values(|p: Seq<char>| trimmed(p))
}

proof fn lemma_comma_pieces_len(s: Seq<char>)
    ensures
        comma_pieces(s).len() >= 1,
    decreases s.len(),
{
    if s.len() > 0 {
        lemma_comma_pieces_len(s.drop_last());
    }
}

/// Splitting at commas loses nothing: no piece holds a comma, and the pieces
/// joined with commas give back the text.
pub proof fn lemma_comma_pieces_join(s: Seq<char>)
    ensures
        join_with_commas(comma_pieces(s)) == s,
        forall|i: int, j: int|
            0 <= i < comma_pieces(s).len() && 0 <= j < comma_pieces(s)[i].len() ==> #[trigger] comma_pieces(
                s,
            )[i][j] != ',',
    decreases s.len(),
{
    if s.len() == 0 {
        assert(join_with_commas(comma_pieces(s)) =~= s);
    } else {
        let t = s.drop_last();
        let p = comma_pieces(t);
        lemma_comma_pieces_join(t);
        lemma_comma_pieces_len(t);
        if s.last() == ',' {
            let q = p.push(Seq::<char>::empty());
            assert(q.drop_last() =~= p);
            assert(join_with_commas(q) =~= s);
        } else {
            let n = p.len() as int;
            let q = p.update(n - 1, p.last().push(s.last()));
            if n == 1 {
                assert(join_with_commas(q) =~= s);
            } else {
                assert(q.drop_last() =~= p.drop_last());
                assert(join_with_commas(p) == join_with_commas(p.drop_last()) + seq![','] + p.last());
                assert(q.last() == p.last().push(s.last()));
                assert(join_with_commas(q) == join_with_commas(p.drop_last()) + seq![','] + q.last());
                assert(s =~= t.push(s.last()));
                assert(join_with_commas(q) =~= s);
            }
            assert forall|i: int, j: int|
                0 <= i < q.len() && 0 <= j < q[i].len() implies #[trigger] q[i][j] != ',' by {
                if i < n - 1 {
                    assert(q[i] == p[i]);
                } else if j < p[i].len() {
                    assert(q[i][j] == p[i][j]);
                }
            }
        }
    }
}

proof fn lemma_trim_start_shape(s: Seq<char>)
    ensures
        trim_start(s).len() > 0 ==> !is_white_space(trim_start(s)[0]),
        trim_start(s).len() <= s.len(),
        s.subrange(s.len() - trim_start(s).len(), s.len() as int) == trim_start(s),
        forall|k: int| 0 <= k < s.len() - trim_start(s).len() ==> is_white_space(#[trigger] s[k]),
    decreases s.len(),
{
    if s.len() > 0 && is_white_space(s[0]) {
        let t = s.drop_first();
        lemma_trim_start_shape(t);
        assert forall|k: int| 0 <= k < s.len() - trim_start(s).len() implies is_white_space(
            #[trigger] s[k],
        ) by {
            if k > 0 {
                assert(s[k] == t[k - 1]);
            }
        }
        assert(t.subrange(t.len() - trim_start(t).len(), t.len() as int) =~= s.subrange(
            s.len() - trim_start(t).len(),
            s.len() as int,
        ));
    } else {
        assert(s.subrange(0, s.len() as int) =~= s);
    }
}

proof fn lemma_trim_end_shape(s: Seq<char>)
    ensures
        trim_end(s).len() > 0 ==> !is_white_space(trim_end(s).last()),
        trim_end(s).len() <= s.len(),
        s.subrange(0, trim_end(s).len() as int) == trim_end(s),
        forall|k: int| trim_end(s).len() <= k < s.len() ==> is_white_space(#[trigger] s[k]),
    decreases s.len(),
{
    if s.len() > 0 && is_white_space(s.last()) {
        let t = s.drop_last();
        lemma_trim_end_shape(t);
        assert forall|k: int| trim_end(s).len() <= k < s.len() implies is_white_space(
            #[trigger] s[k],
        ) by {
            if k < s.len() - 1 {
                assert(s[k] == t[k]);
            }
        }
        assert(t.subrange(0, trim_end(t).len() as int) =~= s.subrange(0, trim_end(t).len() as int));
    } else {
        assert(s.subrange(0, s.len() as int) =~= s);
    }
}

/// A trimmed piece is a run of the piece that neither starts nor ends with
/// white space.
pub proof fn lemma_trimmed_shape(s: Seq<char>)
    ensures
        trimmed(s).len() > 0 ==> !is_white_space(trimmed(s)[0]) && !is_white_space(
            trimmed(s).last(),
        ),
        exists|i: int|
            0 <= i && i + trimmed(s).len() <= s.len() && #[trigger] s.subrange(
                i,
                i + trimmed(s).len(),
            ) == trimmed(s),
{
    let t = trim_start(s);
    lemma_trim_start_shape(s);
    lemma_trim_end_shape(t);
    let r = trim_end(t);
    let i = s.len() - t.len();
    if r.len() > 0 {
        assert(r[0] == t[0]);
    }
    assert(s.subrange(i, i + r.len()) =~= r);
}

/// Trimming removes exactly the white space at both ends and nothing else:
/// the trimmed piece is the run `s[i..j]` where everything before `i` and from
/// `j` on is white space, and the run, when not empty, starts and ends with a
/// character that is not white space.
pub proof fn lemma_trimmed_exact(s: Seq<char>)
    ensures
        exists|i: int, j: int|
            {
                &&& 0 <= i <= j <= s.len()
                &&& #[trigger] s.subrange(i, j) == trimmed(s)
                &&& forall|k: int| 0 <= k < i ==> is_white_space(#[trigger] s[k])
                &&& forall|k: int| j <= k < s.len() ==> is_white_space(#[trigger] s[k])
                &&& i < j ==> !is_white_space(s[i]) && !is_white_space(s[j - 1])
            },
{
    let t = trim_start(s);
    lemma_trim_start_shape(s);
    lemma_trim_end_shape(t);
    let r = trim_end(t);
    let i = s.len() - t.len();
    let j = i + r.len();
    assert(s.subrange(i, j) =~= r);
    assert forall|k: int| j <= k < s.len() implies is_white_space(#[trigger] s[k]) by {
        assert(s[k] == t[k - i]);
    }
    if i < j {
        assert(s[i] == r[0]);
        assert(r[0] == t[0]);
        assert(s[j - 1] == r.last());
    }
}

proof fn lemma_trim_start_at(s: Seq<char>, k: int)
    requires
        0 <= k <= s.len(),
        forall|j: int| 0 <= j < k ==> is_white_space(#[trigger] s[j]),
        k == s.len() || !is_white_space(s[k]),
    ensures
        trim_start(s) == s.subrange(k, s.len() as int),
    decreases k,
{
    if k == 0 {
        assert(s.subrange(0, s.len() as int) =~= s);
    } else {
        let t = s.drop_first();
        assert forall|j: int| 0 <= j < k - 1 implies is_white_space(#[trigger] t[j]) by {
            assert(t[j] == s[j + 1]);
        }
        lemma_trim_start_at(t, k - 1);
        assert(t.subrange(k - 1, t.len() as int) =~= s.subrange(k, s.len() as int));
    }
}

proof fn lemma_trim_end_at(s: Seq<char>, e: int)
    requires
        0 <= e <= s.len(),
        forall|j: int| e <= j < s.len() ==> is_white_space(#[trigger] s[j]),
        e == 0 || !is_white_space(s[e - 1]),
    ensures
        trim_end(s) == s.subrange(0, e),
    decreases s.len() - e,
{
    if e == s.len() {
        assert(s.subrange(0, e) =~= s);
    } else {
        let t = s.drop_last();
        lemma_trim_end_at(t, e);
        assert(t.subrange(0, e) =~= s.subrange(0, e));
    }
}

/// Whether `c` is white space, as `char::is_whitespace` answers.
pub fn is_white_space_char(c: char) -> (b: bool)
    ensures
        b == is_white_space(c),
{
    let u = c as u32;
    (0x9 <= u && u <= 0xd) || u == 0x20 || u == 0x85 || u == 0xa0 || u == 0x1680 || (0x2000 <= u
        && u <= 0x200a) || u == 0x2028 || u == 0x2029 || u == 0x202f || u == 0x205f || u == 0x3000
}

/// Appends a character to a string: `String::push`, which adds the character
/// at the end and changes nothing else.
#[verifier::external_body]
pub(crate) fn push_char(s: &mut String, c: char)
    ensures
        final(s)@ == old(s)@.push(c),
{
    s.push(c);
}

/// The characters of `piece` without leading and trailing white space.
fn trimmed_string(piece: &Vec<char>) -> (r: String)
    ensures
        r@ == trimmed(piece@),
{
    let n = piece.len();
    let mut start: usize = 0;
    while start < n && is_white_space_char(piece[start])
        invariant
            n == piece@.len(),
            start <= n,
            forall|j: int| 0 <= j < start ==> is_white_space(#[trigger] piece@[j]),
        decreases n - start,
    {
        start = start + 1;
    }
    proof {
        lemma_trim_start_at(piece@, start as int);
    }
    let ghost rest = piece@.subrange(start as int, n as int);
    let mut end: usize = n;
    while end > start && is_white_space_char(piece[end - 1])
        invariant
            n == piece@.len(),
            start <= end <= n,
            rest == piece@.subrange(start as int, n as int),
            forall|j: int| end <= j < n ==> is_white_space(#[trigger] piece@[j]),
        decreases end,
    {
        end = end - 1;
    }
    proof {
        assert forall|j: int| end - start <= j < rest.len() implies is_white_space(
            #[trigger] rest[j],
        ) by {
            assert(rest[j] == piece@[start + j]);
        }
        if end > start {
            assert(rest[end - start - 1] == piece@[end - 1]);
        }
        lemma_trim_end_at(rest, end - start);
    }
    let mut r = String::new();
    let mut i = start;
    while i < end
        invariant
            n == piece@.len(),
            start <= i <= end <= n,
            r@ == piece@.subrange(start as int, i as int),
        decreases end - i,
    {
        push_char(&mut r, piece[i]);
        i = i + 1;
        assert(r@ =~= piece@.subrange(start as int, i as int));
    }
    assert(rest.subrange(0, end - start) =~= piece@.subrange(start as int, end as int));
    r
}

/// The RPC endpoints of the setting: its comma-separated pieces, each without
/// leading and trailing white space, empty ones kept.
pub fn rpc_endpoints(setting: &str) -> (r: Vec<String>)
    ensures
        r.len() == endpoint_list(setting@).len(),
        forall|i: int| 0 <= i < r.len() ==> #[trigger] r[i]@ == endpoint_list(setting@)[i],
{
    let mut out: Vec<String> = Vec::new();
    let mut current: Vec<char> = Vec::new();
    let ghost text = setting@;
    assert(comma_pieces(text.subrange(0, 0)) =~= seq![Seq::<char>::empty()]);
    for c in it: setting.chars()
        invariant
            it.seq() == text,
            comma_pieces(text.subrange(0, it.index() as int)).len() == out.len() + 1,
            forall|j: int|
                0 <= j < out.len() ==> #[trigger] out[j]@ == trimmed(
                    comma_pieces(text.subrange(0, it.index() as int))[j],
                ),
            current@ == comma_pieces(text.subrange(0, it.index() as int)).last(),
    {
        let ghost k = it.index() as int;
        let ghost before = text.subrange(0, k);
        assert(text.subrange(0, k + 1).drop_last() =~= before);
        if c == ',' {
            let piece = trimmed_string(&current);
            out.push(piece);
            current = Vec::new();
        } else {
            current.push(c);
        }
    }
    let last = trimmed_string(&current);
    out.push(last);
    proof {
        assert(text.subrange(0, text.len() as int) =~= text);
    }
    out
}

/// The primary endpoint: the first one, in the order of the setting, that a
/// connection could be made to.  `None` when there is none, and the miner
/// gives up.
pub fn primary_endpoint(connected: &Vec<bool>) -> (r: Option<usize>)
    ensures
        r is None <==> forall|i: int| 0 <= i < connected.len() ==> !#[trigger] connected[i],
        r matches Some(p) ==> p < connected.len() && connected[p as int] && forall|j: int|
            0 <= j < p ==> !#[trigger] connected[j],
{
    for i in 0..connected.len()
        invariant
            forall|j: int| 0 <= j < i ==> !#[trigger] connected[j],
    {
        if connected[i] {
            return Some(i);
        }
    }
    None
}

} // verus!
