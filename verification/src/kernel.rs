//! The mining kernel: for one nonce, hash the challenge with the nonce and
//! compare the hash with the difficulty.
//!
//! The kernel hashes `challenge ++ nonce`, the nonce written as a big-endian
//! 256-bit number, with Keccak-256, and a nonce solves the challenge when the
//! hash, read as a big-endian number, is strictly below the difficulty.
use vstd::prelude::*;
use crate::keccak::{
    absorb_block, keccak256_of, keccak_f, keccakf, lane_byte, lane_le, le_lane_at, pad_block,
    squeeze,
};
use crate::words::{
    be_word_at, be_words, below, bytes_value, lemma_be_words_value,
    lemma_bytes_value_8, lemma_bytes_value_leading_zeros, word_byte, word_le, words_le_bytes,
    words_value,
};

verus! {

/// What one launch of the kernel reports: whether some work item found a
/// solving nonce, that nonce in two halves, and its hash as big-endian words.
#[derive(Clone, Copy, Debug, PartialEq, Eq)]
pub struct ResultBuffer {
    pub found: u32,
    pub nonce_lo: u32,
    pub nonce_hi: u32,
    pub hash: [u32; 8],
}

impl ResultBuffer {
    /// The cleared buffer written before each launch: nothing found.
    pub fn cleared() -> (r: ResultBuffer)
        ensures
            r.found == 0,
            r.nonce_lo == 0,
            r.nonce_hi == 0,
            forall|i: int| 0 <= i < 8 ==> r.hash[i] == 0,
    {
        ResultBuffer { found: 0, nonce_lo: 0, nonce_hi: 0, hash: [0u32; 8] }
    }
}

impl Default for ResultBuffer {
    fn default() -> (r: ResultBuffer)
        ensures
            r.found == 0,
            r.nonce_lo == 0,
            r.nonce_hi == 0,
            forall|i: int| 0 <= i < 8 ==> r.hash[i] == 0,
    {
        ResultBuffer::cleared()
    }
}

// ---------------------------------------------------------------------------
// Specification
// ---------------------------------------------------------------------------

/// The word whose bytes are those of `v` in reverse order.
pub open spec fn byte_swapped(v: u32) -> u32 {
    word_le(word_byte(v, 3), word_byte(v, 2), word_byte(v, 1), word_byte(v, 0))
}

/// The nonce as a 256-bit big-endian number: 24 zero bytes, then its 8 bytes.
pub open spec fn nonce_be_bytes(nonce: u64) -> Seq<u8> {
    Seq::new(32, |i: int| if i < 24 { 0u8 } else { lane_byte(nonce, (31 - i) as u64) })
}

/// The message that is hashed for a nonce: the challenge, then the nonce.
pub open spec fn mining_message(challenge: Seq<u8>, nonce: u64) -> Seq<u8> {
    challenge + nonce_be_bytes(nonce)
}

/// The hash of a nonce, the challenge given as the kernel's little-endian words.
pub open spec fn mining_hash(challenge: Seq<u32>, nonce: u64) -> Seq<u8> {
    keccak256_of(mining_message(words_le_bytes(challenge), nonce))
}

/// Whether a nonce solves the challenge: its hash, read as a big-endian
/// number, is strictly below the difficulty.
pub open spec fn solves(challenge: Seq<u32>, difficulty: Seq<u32>, nonce: u64) -> bool {
    bytes_value(mining_hash(challenge, nonce)) < words_value(difficulty)
}

/// The nonce of work item `gid` of a launch at `base`: their sum, wrapping at 2^64.
pub open spec fn work_item_nonce(base: u64, gid: u64) -> u64 {
    if base + gid > u64::MAX {
        (base + gid - 0x1_0000_0000_0000_0000) as u64
    } else {
        (base + gid) as u64
    }
}

/// Work item `gid` of a launch at `base` tries the nonce `base + gid`, taken
/// modulo 2^64; work item 0 tries `base` itself.
pub proof fn lemma_work_item_nonce(base: u64, gid: u64)
    ensures
        work_item_nonce(base, gid) as int == (base as int + gid as int) % 0x1_0000_0000_0000_0000,
        work_item_nonce(base, 0) == base,
        base as int + gid as int <= u64::MAX ==> work_item_nonce(base, gid) as int == base as int
            + gid as int,
{
}

/// The low 32 bits of a nonce.
pub open spec fn nonce_low(n: u64) -> u32 {
    (n % 0x1_0000_0000) as u32
}

/// The high 32 bits of a nonce.
pub open spec fn nonce_high(n: u64) -> u32 {
    (n / 0x1_0000_0000) as u32
}

/// The nonce a result buffer reports: none while `found` is 0, else the
/// nonce joined from its two halves.
pub open spec fn reported(r: ResultBuffer) -> Option<u64> {
    if r.found == 0 {
        None
    } else {
        Some((r.nonce_hi as int * 0x1_0000_0000 + r.nonce_lo as int) as u64)
    }
}

/// What work item `gid` does to the reported nonce: the first work item to
/// find a solving nonce reports it, and a report, once made, stays.
pub open spec fn work_item_step(
    challenge: Seq<u32>,
    difficulty: Seq<u32>,
    base: u64,
    gid: u64,
    rep: Option<u64>,
) -> Option<u64> {
    if rep is None && solves(challenge, difficulty, work_item_nonce(base, gid)) {
        Some(work_item_nonce(base, gid))
    } else {
        rep
    }
}

/// The reported nonce after the work items of `order` ran, in that order,
/// from a cleared buffer.
pub open spec fn run_in_order(challenge: Seq<u32>, difficulty: Seq<u32>, base: u64, order: Seq<u64>) -> Option<u64>
    decreases order.len(),
{
    if order.len() == 0 {
        None
    } else {
        work_item_step(
            challenge,
            difficulty,
            base,
            order.last(),
            run_in_order(challenge, difficulty, base, order.drop_last()),
        )
    }
}

proof fn lemma_run_in_order(challenge: Seq<u32>, difficulty: Seq<u32>, base: u64, order: Seq<u64>)
    ensures
        (run_in_order(challenge, difficulty, base, order) is None) == (forall|i: int|
            0 <= i < order.len() ==> !solves(
                challenge,
                difficulty,
                #[trigger] work_item_nonce(base, order[i]),
            )),
        run_in_order(challenge, difficulty, base, order) matches Some(n) ==> exists|i: int|
            0 <= i < order.len() && n == #[trigger] work_item_nonce(base, order[i]) && solves(
                challenge,
                difficulty,
                n,
            ),
    decreases order.len(),
{
    if order.len() > 0 {
        let prev = order.drop_last();
        lemma_run_in_order(challenge, difficulty, base, prev);
        let k = order.len() - 1;
        assert forall|i: int| 0 <= i < prev.len() implies prev[i] == order[i] by {}
        if run_in_order(challenge, difficulty, base, prev) is None {
            if solves(challenge, difficulty, work_item_nonce(base, order[k])) {
                assert(work_item_nonce(base, order[k]) == work_item_nonce(base, order[k]));
            } else {
                assert forall|i: int| 0 <= i < order.len() implies !solves(
                    challenge,
                    difficulty,
                    #[trigger] work_item_nonce(base, order[i]),
                ) by {
                    if i < k {
                        assert(order[i] == prev[i]);
                    }
                }
            }
        } else {
            let n = run_in_order(challenge, difficulty, base, prev)->0;
            let i = choose|i: int|
                0 <= i < prev.len() && n == #[trigger] work_item_nonce(base, prev[i]) && solves(
                    challenge,
                    difficulty,
                    n,
                );
            assert(order[i] == prev[i]);
            assert(solves(challenge, difficulty, work_item_nonce(base, order[i])));
        }
    }
}

/// Whatever order the work items of a launch run in, as on the device, where
/// the first to claim the buffer wins: the launch reports a nonce exactly when
/// one of its nonces solves the challenge, and the nonce it reports is that of
/// one of its work items and solves the challenge.
pub proof fn lemma_any_order_reports_a_solution(
    challenge: Seq<u32>,
    difficulty: Seq<u32>,
    base: u64,
    global_size: u64,
    order: Seq<u64>,
)
    requires
        forall|i: int| 0 <= i < order.len() ==> #[trigger] order[i] < global_size,
        forall|g: u64| g < global_size ==> #[trigger] order.contains(g),
    ensures
        (run_in_order(challenge, difficulty, base, order) is None) == (forall|g: u64|
            g < global_size ==> !solves(challenge, difficulty, #[trigger] work_item_nonce(base, g))),
        run_in_order(challenge, difficulty, base, order) matches Some(n) ==> exists|g: u64|
            g < global_size && n == #[trigger] work_item_nonce(base, g) && solves(
                challenge,
                difficulty,
                n,
            ),
{
    lemma_run_in_order(challenge, difficulty, base, order);
    if run_in_order(challenge, difficulty, base, order) is None {
        assert forall|g: u64| g < global_size implies !solves(
            challenge,
            difficulty,
            #[trigger] work_item_nonce(base, g),
        ) by {
            assert(order.contains(g));
            let i = choose|i: int| 0 <= i < order.len() && order[i] == g;
            assert(work_item_nonce(base, order[i]) == work_item_nonce(base, g));
        }
    } else {
        let n = run_in_order(challenge, difficulty, base, order)->0;
        let i = choose|i: int|
            0 <= i < order.len() && n == #[trigger] work_item_nonce(base, order[i]) && solves(
                challenge,
                difficulty,
                n,
            );
        assert(order[i] < global_size);
        let g = order[i];
        assert(n == work_item_nonce(base, g));
        if forall|g: u64| g < global_size ==> !solves(challenge, difficulty, #[trigger] work_item_nonce(base, g)) {
            assert(!solves(challenge, difficulty, work_item_nonce(base, g)));
        }
    }
}

/// The nonce bytes are the 256-bit big-endian writing of the nonce, and the
/// message is the challenge's 32 bytes followed by them.
pub proof fn lemma_mining_message(challenge: Seq<u8>, nonce: u64)
    requires
        challenge.len() == 32,
    ensures
        nonce_be_bytes(nonce).len() == 32,
        bytes_value(nonce_be_bytes(nonce)) == nonce,
        mining_message(challenge, nonce).len() == 64,
        mining_message(challenge, nonce).subrange(0, 32) == challenge,
        mining_message(challenge, nonce).subrange(32, 64) == nonce_be_bytes(nonce),
{
    let s = nonce_be_bytes(nonce);
    lemma_bytes_value_leading_zeros(s, 24);
    let t = s.subrange(24, 32);
    lemma_bytes_value_8(t);
    assert(t[0] == lane_byte(nonce, 7));
    assert(t[1] == lane_byte(nonce, 6));
    assert(t[2] == lane_byte(nonce, 5));
    assert(t[3] == lane_byte(nonce, 4));
    assert(t[4] == lane_byte(nonce, 3));
    assert(t[5] == lane_byte(nonce, 2));
    assert(t[6] == lane_byte(nonce, 1));
    assert(t[7] == lane_byte(nonce, 0));
    let (b7, b6, b5, b4) = (lane_byte(nonce, 7), lane_byte(nonce, 6), lane_byte(nonce, 5), lane_byte(nonce, 4));
    let (b3, b2, b1, b0) = (lane_byte(nonce, 3), lane_byte(nonce, 2), lane_byte(nonce, 1), lane_byte(nonce, 0));
    assert(b7 as int * 0x100_0000_0000_0000 + b6 as int * 0x1_0000_0000_0000 + b5 as int
        * 0x100_0000_0000 + b4 as int * 0x1_0000_0000 + b3 as int * 0x100_0000 + b2 as int
        * 0x1_0000 + b1 as int * 0x100 + b0 as int == nonce) by (bit_vector)
        requires
            b7 == lane_byte(nonce, 7),
            b6 == lane_byte(nonce, 6),
            b5 == lane_byte(nonce, 5),
            b4 == lane_byte(nonce, 4),
            b3 == lane_byte(nonce, 3),
            b2 == lane_byte(nonce, 2),
            b1 == lane_byte(nonce, 1),
            b0 == lane_byte(nonce, 0),
    ;
    let m = mining_message(challenge, nonce);
    assert(m.subrange(0, 32) =~= challenge);
    assert(m.subrange(32, 64) =~= s);
}

/// `byte_swapped` reverses the four bytes of a word, and swapping twice gives
/// the word back.
pub proof fn lemma_byte_swapped(v: u32)
    ensures
        word_byte(byte_swapped(v), 0) == word_byte(v, 3),
        word_byte(byte_swapped(v), 1) == word_byte(v, 2),
        word_byte(byte_swapped(v), 2) == word_byte(v, 1),
        word_byte(byte_swapped(v), 3) == word_byte(v, 0),
        byte_swapped(byte_swapped(v)) == v,
{
    assert(word_byte(byte_swapped(v), 0) == word_byte(v, 3) && word_byte(byte_swapped(v), 1)
        == word_byte(v, 2) && word_byte(byte_swapped(v), 2) == word_byte(v, 1) && word_byte(
        byte_swapped(v),
        3,
    ) == word_byte(v, 0) && byte_swapped(byte_swapped(v)) == v) by (bit_vector);
}

/// What it is for a nonce to solve the challenge: the Keccak-256 hash of the
/// challenge bytes followed by the nonce, read as a big-endian number, is
/// strictly below the difficulty.
pub proof fn lemma_solves(challenge: Seq<u32>, difficulty: Seq<u32>, nonce: u64)
    ensures
        mining_hash(challenge, nonce) == keccak256_of(words_le_bytes(challenge) + nonce_be_bytes(nonce)),
        solves(challenge, difficulty, nonce) == (bytes_value(
            keccak256_of(words_le_bytes(challenge) + nonce_be_bytes(nonce)),
        ) < words_value(difficulty)),
{
}

// ---------------------------------------------------------------------------
// Nonces
// ---------------------------------------------------------------------------

/// Splits a nonce into its low and high 32-bit halves, as the kernel stores it.
pub fn split_nonce(n: u64) -> (r: (u32, u32))
    ensures
        r.0 == nonce_low(n),
        r.1 == nonce_high(n),
        n == r.1 as int * 0x1_0000_0000 + r.0 as int,
{
    let lo = (n & 0xffff_ffffu64) as u32;
    let hi = (n >> 32u64) as u32;
    assert((n & 0xffff_ffffu64) as u32 == (n % 0x1_0000_0000) as u32) by (bit_vector);
    assert((n >> 32u64) as u32 == (n / 0x1_0000_0000) as u32) by (bit_vector);
    (lo, hi)
}

/// Joins the two halves of a nonce, as the host reads the result buffer.
pub fn join_nonce(lo: u32, hi: u32) -> (n: u64)
    ensures
        n == hi as int * 0x1_0000_0000 + lo as int,
        nonce_low(n) == lo,
        nonce_high(n) == hi,
{
    let n = ((hi as u64) << 32u64) | (lo as u64);
    assert(((hi as u64) << 32u64) | (lo as u64) == hi as int * 0x1_0000_0000 + lo as int)
        by (bit_vector);
    n
}

/// Splitting a joined nonce gives back its halves.
pub proof fn lemma_split_join(lo: u32, hi: u32)
    ensures
        nonce_low((hi as int * 0x1_0000_0000 + lo as int) as u64) == lo,
        nonce_high((hi as int * 0x1_0000_0000 + lo as int) as u64) == hi,
{
}

/// Joining the halves of a nonce gives back the nonce.
pub proof fn lemma_join_split(n: u64)
    ensures
        nonce_high(n) as int * 0x1_0000_0000 + nonce_low(n) as int == n,
{
}

// ---------------------------------------------------------------------------
// Byte-level facts
// ---------------------------------------------------------------------------

proof fn lemma_lane_of_words(a: u32, b: u32)
    ensures
        lane_le(
            word_byte(a, 0),
            word_byte(a, 1),
            word_byte(a, 2),
            word_byte(a, 3),
            word_byte(b, 0),
            word_byte(b, 1),
            word_byte(b, 2),
            word_byte(b, 3),
        ) == ((b as u64) << 32u64) | (a as u64),
{
    assert(lane_le(
        word_byte(a, 0),
        word_byte(a, 1),
        word_byte(a, 2),
        word_byte(a, 3),
        word_byte(b, 0),
        word_byte(b, 1),
        word_byte(b, 2),
        word_byte(b, 3),
    ) == ((b as u64) << 32u64) | (a as u64)) by (bit_vector);
}

proof fn lemma_lane_of_nonce(n: u64)
    ensures
        lane_le(
            lane_byte(n, 7),
            lane_byte(n, 6),
            lane_byte(n, 5),
            lane_byte(n, 4),
            lane_byte(n, 3),
            lane_byte(n, 2),
            lane_byte(n, 1),
            lane_byte(n, 0),
        ) == ((byte_swapped((n & 0xffff_ffffu64) as u32) as u64) << 32u64) | (byte_swapped(
            (n >> 32u64) as u32,
        ) as u64),
{
    assert(lane_le(
        lane_byte(n, 7),
        lane_byte(n, 6),
        lane_byte(n, 5),
        lane_byte(n, 4),
        lane_byte(n, 3),
        lane_byte(n, 2),
        lane_byte(n, 1),
        lane_byte(n, 0),
    ) == ((byte_swapped((n & 0xffff_ffffu64) as u32) as u64) << 32u64) | (byte_swapped(
        (n >> 32u64) as u32,
    ) as u64)) by (bit_vector);
}

proof fn lemma_constant_lanes()
    ensures
        lane_le(0, 0, 0, 0, 0, 0, 0, 0) == 0,
        lane_le(1, 0, 0, 0, 0, 0, 0, 0) == 1,
        lane_le(0, 0, 0, 0, 0, 0, 0, 0x80) == 0x8000_0000_0000_0000u64,
{
    assert(lane_le(0, 0, 0, 0, 0, 0, 0, 0) == 0) by (bit_vector);
    assert(lane_le(1, 0, 0, 0, 0, 0, 0, 0) == 1) by (bit_vector);
    assert(lane_le(0, 0, 0, 0, 0, 0, 0, 0x80) == 0x8000_0000_0000_0000u64) by (bit_vector);
}

proof fn lemma_hash_words_of_lane(s: u64)
    ensures
        word_le(lane_byte(s, 3), lane_byte(s, 2), lane_byte(s, 1), lane_byte(s, 0))
            == byte_swapped((s & 0xffff_ffffu64) as u32),
        word_le(lane_byte(s, 7), lane_byte(s, 6), lane_byte(s, 5), lane_byte(s, 4))
            == byte_swapped((s >> 32u64) as u32),
{
    assert(word_le(lane_byte(s, 3), lane_byte(s, 2), lane_byte(s, 1), lane_byte(s, 0))
        == byte_swapped((s & 0xffff_ffffu64) as u32)) by (bit_vector);
    assert(word_le(lane_byte(s, 7), lane_byte(s, 6), lane_byte(s, 5), lane_byte(s, 4))
        == byte_swapped((s >> 32u64) as u32)) by (bit_vector);
}

/// The lane `k` of the absorbed block of the mining message.
proof fn lemma_message_lane(w: Seq<u32>, n: u64, k: int)
    requires
        w.len() == 8,
        0 <= k < 25,
    ensures
        absorb_block(pad_block(mining_message(words_le_bytes(w), n)))[k] == (if k < 4 {
            ((w[2 * k + 1] as u64) << 32u64) | (w[2 * k] as u64)
        } else if k == 7 {
            ((byte_swapped((n & 0xffff_ffffu64) as u32) as u64) << 32u64) | (byte_swapped(
                (n >> 32u64) as u32,
            ) as u64)
        } else if k == 8 {
            1u64
        } else if k == 16 {
            0x8000_0000_0000_0000u64
        } else {
            0u64
        }),
{
    let c = words_le_bytes(w);
    let m = mining_message(c, n);
    let b = pad_block(m);
    assert(c.len() == 32);
    assert(m.len() == 64);
    lemma_constant_lanes();
    if k < 17 {
        let o = 8 * k;
        assert(absorb_block(b)[k] == le_lane_at(b, o));
        if k < 4 {
            assert(b[o] == word_byte(w[2 * k], 0));
            assert(b[o + 1] == word_byte(w[2 * k], 1));
            assert(b[o + 2] == word_byte(w[2 * k], 2));
            assert(b[o + 3] == word_byte(w[2 * k], 3));
            assert(b[o + 4] == word_byte(w[2 * k + 1], 0));
            assert(b[o + 5] == word_byte(w[2 * k + 1], 1));
            assert(b[o + 6] == word_byte(w[2 * k + 1], 2));
            assert(b[o + 7] == word_byte(w[2 * k + 1], 3));
            lemma_lane_of_words(w[2 * k], w[2 * k + 1]);
        } else if k == 7 {
            assert(b[o] == lane_byte(n, 7));
            assert(b[o + 1] == lane_byte(n, 6));
            assert(b[o + 2] == lane_byte(n, 5));
            assert(b[o + 3] == lane_byte(n, 4));
            assert(b[o + 4] == lane_byte(n, 3));
            assert(b[o + 5] == lane_byte(n, 2));
            assert(b[o + 6] == lane_byte(n, 1));
            assert(b[o + 7] == lane_byte(n, 0));
            lemma_lane_of_nonce(n);
        } else if k == 8 {
            assert(b[o] == 1);
            assert(b[o + 1] == 0 && b[o + 2] == 0 && b[o + 3] == 0 && b[o + 4] == 0 && b[o + 5]
                == 0 && b[o + 6] == 0 && b[o + 7] == 0);
        } else if k == 16 {
            assert(b[o + 7] == 0x80);
            assert(b[o] == 0 && b[o + 1] == 0 && b[o + 2] == 0 && b[o + 3] == 0 && b[o + 4] == 0
                && b[o + 5] == 0 && b[o + 6] == 0);
        } else {
            assert(b[o] == 0 && b[o + 1] == 0 && b[o + 2] == 0 && b[o + 3] == 0 && b[o + 4] == 0
                && b[o + 5] == 0 && b[o + 6] == 0 && b[o + 7] == 0);
        }
    }
}

// ---------------------------------------------------------------------------
// The kernel
// ---------------------------------------------------------------------------

/// The kernel's `bswap32`: the bytes of a word in reverse order.
pub fn bswap32(v: u32) -> (r: u32)
    ensures
        r == byte_swapped(v),
{
    let r = ((v & 255u32) << 24u32) | ((v & 65280u32) << 8u32) | ((v & 16711680u32) >> 8u32) | ((v
        & 4278190080u32) >> 24u32);
    assert(((v & 255u32) << 24u32) | ((v & 65280u32) << 8u32) | ((v & 16711680u32) >> 8u32) | ((v
        & 4278190080u32) >> 24u32) == byte_swapped(v)) by (bit_vector);
    r
}

/// The state the kernel builds for a nonce: the padded mining message,
/// absorbed into the zero state.
pub fn kernel_state(challenge: &[u32; 8], nonce: u64) -> (st: [u64; 25])
    ensures
        st@ == absorb_block(pad_block(mining_message(words_le_bytes(challenge@), nonce))),
{
    let mut st = [0u64; 25];
    st[0] = ((challenge[1] as u64) << 32u64) | (challenge[0] as u64);
    st[1] = ((challenge[3] as u64) << 32u64) | (challenge[2] as u64);
    st[2] = ((challenge[5] as u64) << 32u64) | (challenge[4] as u64);
    st[3] = ((challenge[7] as u64) << 32u64) | (challenge[6] as u64);
    let lo = (nonce & 0xffff_ffffu64) as u32;
    let hi = (nonce >> 32u64) as u32;
    st[7] = ((bswap32(lo) as u64) << 32u64) | (bswap32(hi) as u64);
    st[8] = 1;
    st[16] = 0x8000_0000_0000_0000u64;
    proof {
        let target = absorb_block(pad_block(mining_message(words_le_bytes(challenge@), nonce)));
        assert forall|k: int| 0 <= k < 25 implies #[trigger] st@[k] == target[k] by {
            lemma_message_lane(challenge@, nonce, k);
        }
        assert(st@ =~= target);
    }
    st
}

/// The hash words the kernel takes from the permuted state: the digest read
/// as big-endian words.
pub fn hash_words(st: &[u64; 25]) -> (h: [u32; 8])
    ensures
        h@ == be_words(squeeze(st@)),
{
    let mut h = [0u32; 8];
    for k in 0..4
        invariant
            forall|j: int| 0 <= j < 2 * k ==> h[j] == be_words(squeeze(st@))[j],
    {
        h[2 * k] = bswap32((st[k] & 0xffff_ffffu64) as u32);
        h[2 * k + 1] = bswap32((st[k] >> 32u64) as u32);
        proof {
            let d = squeeze(st@);
            lemma_hash_words_of_lane(st[k as int]);
            assert(d[8 * k] == lane_byte(st[k as int], 0));
            assert(d[8 * k + 1] == lane_byte(st[k as int], 1));
            assert(d[8 * k + 2] == lane_byte(st[k as int], 2));
            assert(d[8 * k + 3] == lane_byte(st[k as int], 3));
            assert(d[8 * k + 4] == lane_byte(st[k as int], 4));
            assert(d[8 * k + 5] == lane_byte(st[k as int], 5));
            assert(d[8 * k + 6] == lane_byte(st[k as int], 6));
            assert(d[8 * k + 7] == lane_byte(st[k as int], 7));
            assert(be_words(d)[2 * k] == be_word_at(d, 8 * k));
            assert(be_words(d)[2 * k + 1] == be_word_at(d, 8 * k + 4));
        }
    }
    assert(h@ =~= be_words(squeeze(st@)));
    h
}

/// The hash of a nonce as the kernel computes it: big-endian words of the digest.
pub fn nonce_hash_words(challenge: &[u32; 8], nonce: u64) -> (h: [u32; 8])
    ensures
        h@ == be_words(mining_hash(challenge@, nonce)),
        words_value(h@) == bytes_value(mining_hash(challenge@, nonce)),
{
    let mut st = kernel_state(challenge, nonce);
    keccakf(&mut st);
    let h = hash_words(&st);
    proof {
        lemma_be_words_value(mining_hash(challenge@, nonce));
    }
    h
}

/// One work item of the kernel `mine`: it tries the nonce `base + gid`
/// (wrapping) and, if that nonce solves the challenge and no work item has
/// reported yet, records it with its hash.
pub fn mine(challenge: &[u32; 8], difficulty: &[u32; 8], base: u64, gid: u64, out: &mut ResultBuffer)
    ensures
        ({
            let nonce = work_item_nonce(base, gid);
            if solves(challenge@, difficulty@, nonce) && old(out).found == 0 {
                &&& final(out).found == 1
                &&& final(out).nonce_lo == nonce_low(nonce)
                &&& final(out).nonce_hi == nonce_high(nonce)
                &&& final(out).hash@ == be_words(mining_hash(challenge@, nonce))
            } else {
                *final(out) == *old(out)
            }
        }),
        old(out).found <= 1 ==> reported(*final(out)) == work_item_step(
            challenge@,
            difficulty@,
            base,
            gid,
            reported(*old(out)),
        ),
{
    let nonce = base.wrapping_add(gid);
    let h = nonce_hash_words(challenge, nonce);
    if below(&h, difficulty) {
        if out.found == 0 {
            let (lo, hi) = split_nonce(nonce);
            out.found = 1;
            out.nonce_lo = lo;
            out.nonce_hi = hi;
            out.hash = h;
        }
    }
}

/// Whether work item `g` of a launch at `base` holds the first solving nonce:
/// it solves, and no work item before it does.
pub open spec fn first_solving(challenge: Seq<u32>, difficulty: Seq<u32>, base: u64, g: u64) -> bool {
    &&& solves(challenge, difficulty, work_item_nonce(base, g))
    &&& forall|j: u64| j < g ==> !solves(challenge, difficulty, #[trigger] work_item_nonce(base, j))
}

/// A launch of the kernel over `global_size` work items, run one work item
/// after another, on a cleared result buffer.  It reports a nonce exactly when
/// one of the launch's nonces solves the challenge, and then the first one.
pub fn launch(
    challenge: &[u32; 8],
    difficulty: &[u32; 8],
    base: u64,
    global_size: u64,
    out: &mut ResultBuffer,
)
    requires
        old(out).found == 0,
    ensures
        (final(out).found == 0) == (forall|g: u64|
            g < global_size ==> !solves(challenge@, difficulty@, #[trigger] work_item_nonce(base, g))),
        final(out).found == 0 ==> *final(out) == *old(out),
        reported(*final(out)) == run_in_order(
            challenge@,
            difficulty@,
            base,
            Seq::new(global_size as nat, |i: int| i as u64),
        ),
        final(out).found != 0 ==> final(out).found == 1 && exists|g: u64|
            #![trigger work_item_nonce(base, g)]
            {
                &&& g < global_size
                &&& first_solving(challenge@, difficulty@, base, g)
                &&& final(out).nonce_lo == nonce_low(work_item_nonce(base, g))
                &&& final(out).nonce_hi == nonce_high(work_item_nonce(base, g))
                &&& final(out).hash@ == be_words(mining_hash(challenge@, work_item_nonce(base, g)))
            },
{
    let ghost start = *out;
    for gid in 0..global_size
        invariant
            start.found == 0,
            out.found == 0 ==> *out == start,
            out.found <= 1,
            reported(*out) == run_in_order(
                challenge@,
                difficulty@,
                base,
                Seq::new(gid as nat, |i: int| i as u64),
            ),
            out.found == 0 ==> forall|j: u64|
                j < gid ==> !solves(challenge@, difficulty@, #[trigger] work_item_nonce(base, j)),
            out.found != 0 ==> out.found == 1 && exists|g: u64|
                #![trigger work_item_nonce(base, g)]
                {
                    &&& g < gid
                    &&& first_solving(challenge@, difficulty@, base, g)
                    &&& out.nonce_lo == nonce_low(work_item_nonce(base, g))
                    &&& out.nonce_hi == nonce_high(work_item_nonce(base, g))
                    &&& out.hash@ == be_words(mining_hash(challenge@, work_item_nonce(base, g)))
                },
    {
        let ghost before = *out;
        mine(challenge, difficulty, base, gid, out);
        proof {
            assert(Seq::new((gid + 1) as nat, |i: int| i as u64).drop_last() =~= Seq::new(
                gid as nat,
                |i: int| i as u64,
            ));
            if before.found == 0 && out.found != 0 {
                assert(first_solving(challenge@, difficulty@, base, gid));
                assert(work_item_nonce(base, gid) == work_item_nonce(base, gid));
            }
        }
    }
}

/// The nonce that the host joins from a result buffer is the nonce that the
/// work item stored: where that nonce solved the challenge, so does the joined one.
pub proof fn lemma_reported_nonce_solves(
    challenge: Seq<u32>,
    difficulty: Seq<u32>,
    nonce: u64,
    r: ResultBuffer,
)
    requires
        solves(challenge, difficulty, nonce),
        r.nonce_lo == nonce_low(nonce),
        r.nonce_hi == nonce_high(nonce),
    ensures
        (r.nonce_hi as int * 0x1_0000_0000 + r.nonce_lo as int) as u64 == nonce,
        solves(challenge, difficulty, (r.nonce_hi as int * 0x1_0000_0000 + r.nonce_lo as int) as u64),
{
}

} // verus!
