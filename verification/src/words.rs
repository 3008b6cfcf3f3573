//! Bytes, 32-bit words and the big-endian numbers they spell.
//!
//! The kernel works on eight 32-bit words: the challenge as little-endian
//! words of its bytes, the difficulty and the hash as big-endian words of a
//! 256-bit big-endian number.
use vstd::prelude::*;

verus! {

/// The 32-bit word whose little-endian bytes are `b0, b1, b2, b3`.
pub open spec fn word_le(b0: u8, b1: u8, b2: u8, b3: u8) -> u32 {
    (b0 as u32) | ((b1 as u32) << 8u32) | ((b2 as u32) << 16u32) | ((b3 as u32) << 24u32)
}

/// Byte `k` (counted from the least significant) of a 32-bit word.
pub open spec fn word_byte(w: u32, k: u32) -> u8 {
    ((w >> (8 * k) as u32) & 0xffu32) as u8
}

/// The little-endian word at byte offset `off` of `b`.
pub open spec fn le_word_at(b: Seq<u8>, off: int) -> u32 {
    word_le(b[off], b[off + 1], b[off + 2], b[off + 3])
}

/// The big-endian word at byte offset `off` of `b`.
pub open spec fn be_word_at(b: Seq<u8>, off: int) -> u32 {
    word_le(b[off + 3], b[off + 2], b[off + 1], b[off])
}

/// `b` read as little-endian 32-bit words.
pub open spec fn le_words(b: Seq<u8>) -> Seq<u32> {
    Seq::new(b.len() / 4, |i: int| le_word_at(b, 4 * i))
}

/// `b` read as big-endian 32-bit words.
pub open spec fn be_words(b: Seq<u8>) -> Seq<u32> {
    Seq::new(b.len() / 4, |i: int| be_word_at(b, 4 * i))
}

/// The bytes of little-endian words, in order.
pub open spec fn words_le_bytes(w: Seq<u32>) -> Seq<u8> {
    Seq::new(4 * w.len(), |i: int| word_byte(w[i / 4], (i % 4) as u32))
}

/// The number that the bytes `b` spell, most significant first.
pub open spec fn bytes_value(b: Seq<u8>) -> nat
    decreases b.len(),
{
    if b.len() == 0 {
        0
    } else {
        bytes_value(b.drop_last()) * 256 + b.last() as nat
    }
}

/// The number that the 32-bit words `w` spell, most significant first.
pub open spec fn words_value(w: Seq<u32>) -> nat
    decreases w.len(),
{
    if w.len() == 0 {
        0
    } else {
        words_value(w.drop_last()) * 0x1_0000_0000 + w.last() as nat
    }
}

// ---------------------------------------------------------------------------
// Lemmas
// ---------------------------------------------------------------------------

proof fn lemma_word_le_bytes(w: u32)
    ensures
        word_le(word_byte(w, 0), word_byte(w, 1), word_byte(w, 2), word_byte(w, 3)) == w,
{
    assert(word_le(word_byte(w, 0), word_byte(w, 1), word_byte(w, 2), word_byte(w, 3)) == w)
        by (bit_vector);
}

proof fn lemma_word_byte_le(b0: u8, b1: u8, b2: u8, b3: u8)
    ensures
        word_byte(word_le(b0, b1, b2, b3), 0) == b0,
        word_byte(word_le(b0, b1, b2, b3), 1) == b1,
        word_byte(word_le(b0, b1, b2, b3), 2) == b2,
        word_byte(word_le(b0, b1, b2, b3), 3) == b3,
{
    assert(word_byte(word_le(b0, b1, b2, b3), 0) == b0) by (bit_vector);
    assert(word_byte(word_le(b0, b1, b2, b3), 1) == b1) by (bit_vector);
    assert(word_byte(word_le(b0, b1, b2, b3), 2) == b2) by (bit_vector);
    assert(word_byte(word_le(b0, b1, b2, b3), 3) == b3) by (bit_vector);
}

/// A big-endian word is worth its four bytes in base 256.
proof fn lemma_be_word_value(b0: u8, b1: u8, b2: u8, b3: u8)
    ensures
        word_le(b3, b2, b1, b0) as int == ((b0 as int * 256 + b1) * 256 + b2) * 256 + b3,
{
    assert(word_le(b3, b2, b1, b0) as int == ((b0 as int * 256 + b1) * 256 + b2) * 256 + b3)
        by (bit_vector);
}

/// Reading bytes as little-endian words and writing the words back gives the bytes.
pub proof fn lemma_le_words_roundtrip(b: Seq<u8>)
    requires
        b.len() % 4 == 0,
    ensures
        words_le_bytes(le_words(b)) == b,
{
    let w = le_words(b);
    assert forall|i: int| 0 <= i < b.len() implies #[trigger] words_le_bytes(w)[i] == b[i] by {
        let q = i / 4;
        let o = 4 * q;
        lemma_word_byte_le(b[o], b[o + 1], b[o + 2], b[o + 3]);
    }
    assert(words_le_bytes(w) =~= b);
}

/// Writing words as little-endian bytes and reading them back gives the words.
pub proof fn lemma_words_le_bytes_roundtrip(w: Seq<u32>)
    ensures
        le_words(words_le_bytes(w)) == w,
{
    let b = words_le_bytes(w);
    assert forall|i: int| 0 <= i < w.len() implies #[trigger] le_words(b)[i] == w[i] by {
        assert(b[4 * i] == word_byte(w[i], 0));
        assert(b[4 * i + 1] == word_byte(w[i], 1));
        assert(b[4 * i + 2] == word_byte(w[i], 2));
        assert(b[4 * i + 3] == word_byte(w[i], 3));
        lemma_word_le_bytes(w[i]);
    }
    assert(le_words(b) =~= w);
}

/// Big-endian words spell the same number as the bytes they were read from.
pub proof fn lemma_be_words_value(b: Seq<u8>)
    requires
        b.len() % 4 == 0,
    ensures
        words_value(be_words(b)) == bytes_value(b),
    decreases b.len(),
{
    if b.len() > 0 {
        let n = b.len() as int;
        let rest = b.subrange(0, n - 4);
        lemma_be_words_value(rest);
        assert(be_words(b).drop_last() =~= be_words(rest));
        assert(b.drop_last().drop_last().drop_last().drop_last() =~= rest);
        let b3 = b.drop_last();
        let b2 = b3.drop_last();
        let b1 = b2.drop_last();
        assert(bytes_value(b) == bytes_value(b3) * 256 + b[n - 1]);
        assert(bytes_value(b3) == bytes_value(b2) * 256 + b[n - 2]);
        assert(bytes_value(b2) == bytes_value(b1) * 256 + b[n - 3]);
        assert(bytes_value(b1) == bytes_value(rest) * 256 + b[n - 4]);
        lemma_be_word_value(b[n - 4], b[n - 3], b[n - 2], b[n - 1]);
        assert(be_words(b).last() == be_word_at(b, n - 4));
    }
}

/// A word sequence spells a number below `2^(32 * len)`; stated as the
/// inequality that the comparison proofs need.
proof fn lemma_words_value_step(a: nat, b: nat, x: u32, y: u32)
    requires
        a < b,
    ensures
        a * 0x1_0000_0000 + x < b * 0x1_0000_0000 + y,
{
    assert(a * 0x1_0000_0000 + x < b * 0x1_0000_0000 + y) by (nonlinear_arith)
        requires
            a < b,
            x < 0x1_0000_0000,
    ;
}

/// Comparing two word sequences of the same length from the most significant
/// word: at the first difference, the smaller word marks the smaller number.
pub proof fn lemma_words_lex(h: Seq<u32>, d: Seq<u32>, i: int)
    requires
        h.len() == d.len(),
        0 <= i < h.len(),
        forall|j: int| 0 <= j < i ==> h[j] == d[j],
        h[i] < d[i],
    ensures
        words_value(h) < words_value(d),
    decreases h.len(),
{
    let n = h.len() as int;
    if i == n - 1 {
        assert(h.drop_last() =~= d.drop_last());
    } else {
        lemma_words_lex(h.drop_last(), d.drop_last(), i);
        lemma_words_value_step(
            words_value(h.drop_last()),
            words_value(d.drop_last()),
            h.last(),
            d.last(),
        );
    }
}

/// Leading zero bytes do not change the number.
pub proof fn lemma_bytes_value_leading_zeros(s: Seq<u8>, k: int)
    requires
        0 <= k <= s.len(),
        forall|i: int| 0 <= i < k ==> #[trigger] s[i] == 0,
    ensures
        bytes_value(s) == bytes_value(s.subrange(k, s.len() as int)),
    decreases s.len(),
{
    if s.len() == 0 {
        assert(s.subrange(k, 0) =~= s);
    } else if s.len() == k {
        lemma_bytes_value_leading_zeros(s.drop_last(), k - 1);
        assert(s.drop_last().subrange(k - 1, k - 1) =~= Seq::<u8>::empty());
        assert(s.subrange(k, k) =~= Seq::<u8>::empty());
    } else {
        lemma_bytes_value_leading_zeros(s.drop_last(), k);
        assert(s.subrange(k, s.len() as int).drop_last() =~= s.drop_last().subrange(
            k,
            s.len() - 1,
        ));
    }
}

/// Eight bytes spell `b0 * 256^7 + b1 * 256^6 + ... + b7`.
pub proof fn lemma_bytes_value_8(t: Seq<u8>)
    requires
        t.len() == 8,
    ensures
        bytes_value(t) == t[0] as int * 0x100_0000_0000_0000 + t[1] as int * 0x1_0000_0000_0000
            + t[2] as int * 0x100_0000_0000 + t[3] as int * 0x1_0000_0000 + t[4] as int * 0x100_0000
            + t[5] as int * 0x1_0000 + t[6] as int * 0x100 + t[7] as int,
{
    let t7 = t.drop_last();
    let t6 = t7.drop_last();
    let t5 = t6.drop_last();
    let t4 = t5.drop_last();
    let t3 = t4.drop_last();
    let t2 = t3.drop_last();
    let t1 = t2.drop_last();
    let t0 = t1.drop_last();
    assert(t0.len() == 0);
    assert(bytes_value(t1) == bytes_value(t0) * 256 + t[0]);
    assert(bytes_value(t2) == bytes_value(t1) * 256 + t[1]);
    assert(bytes_value(t3) == bytes_value(t2) * 256 + t[2]);
    assert(bytes_value(t4) == bytes_value(t3) * 256 + t[3]);
    assert(bytes_value(t5) == bytes_value(t4) * 256 + t[4]);
    assert(bytes_value(t6) == bytes_value(t5) * 256 + t[5]);
    assert(bytes_value(t7) == bytes_value(t6) * 256 + t[6]);
    assert(bytes_value(t) == bytes_value(t7) * 256 + t[7]);
}

/// A little-endian word is worth its four bytes, the first the least significant.
pub proof fn lemma_le_words_value(b: Seq<u8>, i: int)
    requires
        0 <= i < b.len() / 4,
    ensures
        le_words(b)[i] as int == b[4 * i] + 256 * b[4 * i + 1] + 65536 * b[4 * i + 2] + 16777216
            * b[4 * i + 3],
{
    let (b0, b1, b2, b3) = (b[4 * i], b[4 * i + 1], b[4 * i + 2], b[4 * i + 3]);
    assert(word_le(b0, b1, b2, b3) as int == b0 + 256 * b1 + 65536 * b2 + 16777216 * b3)
        by (bit_vector);
}

/// A big-endian word is worth its four bytes, the first the most significant.
pub proof fn lemma_be_word_of_bytes(b: Seq<u8>, i: int)
    requires
        0 <= i < b.len() / 4,
    ensures
        be_words(b)[i] as int == 16777216 * b[4 * i] + 65536 * b[4 * i + 1] + 256 * b[4 * i + 2]
            + b[4 * i + 3],
{
    lemma_be_word_value(b[4 * i], b[4 * i + 1], b[4 * i + 2], b[4 * i + 3]);
}

/// The number spelt by words or bytes grows by one digit at a time, the
/// last one the least significant.
pub proof fn lemma_values_push(w: Seq<u32>, x: u32, b: Seq<u8>, y: u8)
    ensures
        words_value(w.push(x)) == words_value(w) * 0x1_0000_0000 + x,
        bytes_value(b.push(y)) == bytes_value(b) * 256 + y,
        words_value(Seq::<u32>::empty()) == 0,
        bytes_value(Seq::<u8>::empty()) == 0,
{
    assert(w.push(x).drop_last() =~= w);
    assert(b.push(y).drop_last() =~= b);
}

/// Writing words out little-endian: bytes `4i .. 4i + 4` spell word `i`, the
/// first byte the least significant.
pub proof fn lemma_words_le_bytes_value(w: Seq<u32>, i: int)
    requires
        0 <= i < w.len(),
    ensures
        words_le_bytes(w).len() == 4 * w.len(),
        w[i] as int == words_le_bytes(w)[4 * i] + 256 * words_le_bytes(w)[4 * i + 1] + 65536
            * words_le_bytes(w)[4 * i + 2] + 16777216 * words_le_bytes(w)[4 * i + 3],
{
    let b = words_le_bytes(w);
    assert(b[4 * i] == word_byte(w[i], 0));
    assert(b[4 * i + 1] == word_byte(w[i], 1));
    assert(b[4 * i + 2] == word_byte(w[i], 2));
    assert(b[4 * i + 3] == word_byte(w[i], 3));
    let v = w[i];
    assert(v as int == word_byte(v, 0) + 256 * word_byte(v, 1) + 65536 * word_byte(v, 2)
        + 16777216 * word_byte(v, 3)) by (bit_vector);
}

// ---------------------------------------------------------------------------
// Executable packing
// ---------------------------------------------------------------------------

/// The challenge as the kernel reads it: eight little-endian words.
pub fn challenge_words(challenge: &[u8; 32]) -> (w: [u32; 8])
    ensures
        w@ == le_words(challenge@),
        words_le_bytes(w@) == challenge@,
{
    let mut w = [0u32; 8];
    for i in 0..8
        invariant
            forall|j: int| 0 <= j < i ==> w[j] == le_word_at(challenge@, 4 * j),
    {
        let o = 4 * i;
        w[i] = (challenge[o] as u32) | ((challenge[o + 1] as u32) << 8u32) | ((challenge[o + 2] as u32)
            << 16u32) | ((challenge[o + 3] as u32) << 24u32);
    }
    assert(w@ =~= le_words(challenge@));
    proof {
        lemma_le_words_roundtrip(challenge@);
    }
    w
}

/// The difficulty as the kernel reads it: eight big-endian words of the
/// big-endian 256-bit number.
pub fn difficulty_words(difficulty: &[u8; 32]) -> (w: [u32; 8])
    ensures
        w@ == be_words(difficulty@),
        words_value(w@) == bytes_value(difficulty@),
{
    let mut w = [0u32; 8];
    for i in 0..8
        invariant
            forall|j: int| 0 <= j < i ==> w[j] == be_word_at(difficulty@, 4 * j),
    {
        let o = 4 * i;
        w[i] = (difficulty[o + 3] as u32) | ((difficulty[o + 2] as u32) << 8u32) | ((difficulty[o
            + 1] as u32) << 16u32) | ((difficulty[o] as u32) << 24u32);
    }
    assert(w@ =~= be_words(difficulty@));
    proof {
        lemma_be_words_value(difficulty@);
    }
    w
}

/// The kernel's `below`: whether the hash words, read as a big-endian number,
/// are strictly smaller than the difficulty words.
pub fn below(h: &[u32; 8], d: &[u32; 8]) -> (r: bool)
    ensures
        r == (words_value(h@) < words_value(d@)),
{
    for i in 0..8
        invariant
            forall|j: int| 0 <= j < i ==> h[j] == d[j],
    {
        if h[i] < d[i] {
            proof {
                lemma_words_lex(h@, d@, i as int);
            }
            return true;
        }
        if h[i] > d[i] {
            proof {
                lemma_words_lex(d@, h@, i as int);
            }
            return false;
        }
    }
    assert(h@ =~= d@);
    false
}

} // verus!
