//! The challenge in lowercase hexadecimal, as the miner reports it.
use vstd::prelude::*;

verus! {

/// The lowercase hexadecimal digit of `v` (`0 <= v < 16`).
pub open spec fn hex_digit(v: int) -> char {
    if v < 10 {
        (48 + v) as char
    } else {
        (87 + v) as char
    }
}

/// Lowercase hexadecimal text of bytes: two digits per byte, the high half first.
pub open spec fn hex_lower(b: Seq<u8>) -> Seq<char> {
    Seq::new(
        2 * b.len(),
        |i: int|
            if i % 2 == 0 {
                hex_digit(b[i / 2] as int / 16)
            } else {
                hex_digit(b[i / 2] as int % 16)
            },
    )
}

/// The value of a lowercase hexadecimal digit.
pub open spec fn hex_value(c: char) -> int {
    if '0' <= c <= '9' {
        c as int - 48
    } else {
        c as int - 87
    }
}

/// The hexadecimal text is two lowercase digits per byte, in the order of
/// the bytes, the first worth sixteen times the second.
pub proof fn lemma_hex_lower(b: Seq<u8>)
    ensures
        hex_lower(b).len() == 2 * b.len(),
        forall|i: int|
            0 <= i < 2 * b.len() ==> ('0' <= #[trigger] hex_lower(b)[i] <= '9' || 'a' <= hex_lower(
                b,
            )[i] <= 'f'),
        forall|i: int|
            0 <= i < b.len() ==> hex_value(#[trigger] hex_lower(b)[2 * i]) * 16 + hex_value(
                hex_lower(b)[2 * i + 1],
            ) == b[i],
{
    assert forall|i: int| 0 <= i < b.len() implies hex_value(#[trigger] hex_lower(b)[2 * i]) * 16
        + hex_value(hex_lower(b)[2 * i + 1]) == b[i] by {
        assert((2 * i) / 2 == i && (2 * i + 1) / 2 == i);
        assert((2 * i) % 2 == 0 && (2 * i + 1) % 2 == 1);
    }
}

/// `hex::encode`: each byte as two lowercase hexadecimal digits, the high half
/// first, in the order of the bytes.
#[verifier::external_body]
fn hex_encode(bytes: &[u8]) -> (r: String)
    ensures
        r@ == hex_lower(bytes@),
{
    hex::encode(bytes)
}

/// The challenge as 64 lowercase hexadecimal digits.
pub fn challenge_hex(challenge: &[u8; 32]) -> (r: String)
    ensures
        r@ == hex_lower(challenge@),
        r@.len() == 64,
{
    hex_encode(challenge.as_slice())
}

/// The first 8 hexadecimal digits of the challenge, shown in the progress line.
pub fn challenge_hex_prefix(challenge: &[u8; 32]) -> (r: String)
    ensures
        r@ == hex_lower(challenge@).subrange(0, 8),
{
    let head = [challenge[0], challenge[1], challenge[2], challenge[3]];
    let r = hex_encode(head.as_slice());
    assert(head@ =~= challenge@.subrange(0, 4));
    assert(r@ =~= hex_lower(challenge@).subrange(0, 8));
    r
}

} // verus!
