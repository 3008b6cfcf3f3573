//! Keccak-f[1600] and the one-block Keccak-256 sponge.
//!
//! The state is 25 lanes of 64 bits, lane `x + 5 * y` holding the FIPS 202
//! coordinates `(x, y)`.  The permutation is specified step by step
//! (theta, rho, pi, chi, iota) and the executable code is proved to compute it.
use vstd::prelude::*;

verus! {

// ---------------------------------------------------------------------------
// Specification
// ---------------------------------------------------------------------------

/// Left rotation of a 64-bit lane by `n` bits (`n < 64`).
pub open spec fn rotl(x: u64, n: u64) -> u64 {
    if n == 0 {
        x
    } else {
        (x << n) | (x >> ((64 - n) as u64))
    }
}

/// Rotation offsets of the rho step, indexed by lane `x + 5 * y` (FIPS 202, table 2).
pub open spec fn rho_offset(i: u64) -> u64 {
    match i {
            0 => 0,
            1 => 1,
            2 => 62,
            3 => 28,
            4 => 27,
            5 => 36,
            6 => 44,
            7 => 6,
            8 => 55,
            9 => 20,
            10 => 3,
            11 => 10,
            12 => 43,
            13 => 25,
            14 => 39,
            15 => 41,
            16 => 45,
            17 => 15,
            18 => 21,
            19 => 8,
            20 => 18,
            21 => 2,
            22 => 61,
            23 => 56,
            24 => 14,
            _ => 0,
    }
}

/// Round constants of the iota step.
pub open spec fn round_constant(r: u64) -> u64 {
    match r {
            0 => 0x0000000000000001,
            1 => 0x0000000000008082,
            2 => 0x800000000000808a,
            3 => 0x8000000080008000,
            4 => 0x000000000000808b,
            5 => 0x0000000080000001,
            6 => 0x8000000080008081,
            7 => 0x8000000000008009,
            8 => 0x000000000000008a,
            9 => 0x0000000000000088,
            10 => 0x0000000080008009,
            11 => 0x000000008000000a,
            12 => 0x000000008000808b,
            13 => 0x800000000000008b,
            14 => 0x8000000000008089,
            15 => 0x8000000000008003,
            16 => 0x8000000000008002,
            17 => 0x8000000000000080,
            18 => 0x000000000000800a,
            19 => 0x800000008000000a,
            20 => 0x8000000080008081,
            21 => 0x8000000000008080,
            22 => 0x0000000080000001,
            23 => 0x8000000080008008,
            _ => 0,
    }
}

/// Parity of column `x`: the xor of its five lanes.
pub open spec fn column_parity(a: Seq<u64>, x: int) -> u64 {
    a[x] ^ a[x + 5] ^ a[x + 10] ^ a[x + 15] ^ a[x + 20]
}

/// The value xored into every lane of column `x` by theta.
pub open spec fn theta_effect(a: Seq<u64>, x: int) -> u64 {
    column_parity(a, (x + 4) % 5) ^ rotl(column_parity(a, (x + 1) % 5), 1)
}

/// theta: every lane is xored with the parities of the two neighbouring columns.
pub open spec fn theta(a: Seq<u64>) -> Seq<u64> {
    Seq::new(25, |i: int| a[i] ^ theta_effect(a, i % 5))
}

/// The lane that pi moves to lane `k`: pi sends `(x, y)` to `(y, 2x + 3y mod 5)`,
/// so lane `(X, Y)` comes from `(3 (Y + 2X) mod 5, X)`.
pub open spec fn pi_source(k: int) -> int {
    (3 * (k / 5 + 2 * (k % 5))) % 5 + 5 * (k % 5)
}

/// rho then pi: every lane is rotated by its offset and moved to its new place.
pub open spec fn rho_pi(a: Seq<u64>) -> Seq<u64> {
    Seq::new(25, |k: int| rotl(a[pi_source(k)], rho_offset(pi_source(k) as u64)))
}

/// chi: the only non-linear step, row by row.
pub open spec fn chi(a: Seq<u64>) -> Seq<u64> {
    Seq::new(
        25,
        |i: int| a[i] ^ (!a[(i % 5 + 1) % 5 + 5 * (i / 5)] & a[(i % 5 + 2) % 5 + 5 * (i / 5)]),
    )
}

/// iota: lane (0, 0) is xored with the round constant.
pub open spec fn iota(a: Seq<u64>, r: u64) -> Seq<u64> {
    a.update(0, a[0] ^ round_constant(r))
}

/// Round `r` of Keccak-f[1600].
pub open spec fn keccak_round(a: Seq<u64>, r: u64) -> Seq<u64> {
    iota(chi(rho_pi(theta(a))), r)
}

/// The first `n` rounds of Keccak-f[1600].
pub open spec fn keccak_rounds(a: Seq<u64>, n: nat) -> Seq<u64>
    decreases n,
{
    if n == 0 {
        a
    } else {
        keccak_round(keccak_rounds(a, (n - 1) as nat), (n - 1) as u64)
    }
}

/// The Keccak-f[1600] permutation.
pub open spec fn keccak_f(a: Seq<u64>) -> Seq<u64> {
    keccak_rounds(a, 24)
}

// ---------------------------------------------------------------------------
// The sponge, for messages that fit in one block
// ---------------------------------------------------------------------------

/// The lane whose little-endian bytes are `b0 .. b7`.
pub open spec fn lane_le(b0: u8, b1: u8, b2: u8, b3: u8, b4: u8, b5: u8, b6: u8, b7: u8) -> u64 {
    (b0 as u64) | ((b1 as u64) << 8u64) | ((b2 as u64) << 16u64) | ((b3 as u64) << 24u64) | ((
    b4 as u64) << 32u64) | ((b5 as u64) << 40u64) | ((b6 as u64) << 48u64) | ((b7 as u64)
        << 56u64)
}

/// The little-endian lane at byte offset `off` of `b`.
pub open spec fn le_lane_at(b: Seq<u8>, off: int) -> u64 {
    lane_le(b[off], b[off + 1], b[off + 2], b[off + 3], b[off + 4], b[off + 5], b[off + 6], b[off + 7])
}

/// Byte `k` (counted from the least significant) of a lane.
pub open spec fn lane_byte(w: u64, k: u64) -> u8 {
    ((w >> (8 * k) as u64) & 0xffu64) as u8
}

/// Byte `i` of the padded block of a message shorter than the rate: the
/// message, then Keccak's padding (a first byte 0x01, zeros, and 0x80 in the
/// last byte of the block; 0x81 where the two coincide).
pub open spec fn padded_byte(m: Seq<u8>, i: int) -> u8 {
    if i < m.len() {
        m[i]
    } else if i == m.len() && i == 135 {
        0x81
    } else if i == m.len() {
        0x01
    } else if i == 135 {
        0x80
    } else {
        0
    }
}

/// The single padded block of a message shorter than the rate.
pub open spec fn pad_block(m: Seq<u8>) -> Seq<u8> {
    Seq::new(136, |i: int| padded_byte(m, i))
}

/// The state after absorbing one block into the all-zero state.
pub open spec fn absorb_block(block: Seq<u8>) -> Seq<u64> {
    Seq::new(25, |i: int| if i < 17 { le_lane_at(block, 8 * i) } else { 0u64 })
}

/// The 32-byte digest squeezed from a state: the little-endian bytes of its first four lanes.
pub open spec fn squeeze(s: Seq<u64>) -> Seq<u8> {
    Seq::new(32, |j: int| lane_byte(s[j / 8], (j % 8) as u64))
}

/// Keccak-256 of a message shorter than the rate (136 bytes).
pub open spec fn keccak256_of(m: Seq<u8>) -> Seq<u8> {
    squeeze(keccak_f(absorb_block(pad_block(m))))
}

/// Keccak-f[1600] is 24 rounds, for every state: the permutation is the
/// 24-fold application of the round function, round `r` using index `r`.
pub proof fn lemma_keccak_f_is_24_rounds(a: Seq<u64>)
    ensures
        keccak_f(a) == keccak_rounds(a, 24),
        keccak_rounds(a, 0) == a,
        forall|n: nat|
            n < 24 ==> #[trigger] keccak_rounds(a, n + 1) == keccak_round(keccak_rounds(a, n), n as u64),
{
    assert forall|n: nat| n < 24 implies #[trigger] keccak_rounds(a, n + 1) == keccak_round(
        keccak_rounds(a, n),
        n as u64,
    ) by {
        assert((n + 1) as nat - 1 == n);
    }
}

/// Keccak-256 of a short message is the first 32 bytes squeezed from 24
/// rounds of Keccak-f over the padded, absorbed message.
pub proof fn lemma_keccak256_is_24_rounds(m: Seq<u8>)
    ensures
        keccak256_of(m) == squeeze(keccak_rounds(absorb_block(pad_block(m)), 24)),
{
}

// ---------------------------------------------------------------------------
// The steps, as FIPS 202 describes them
// ---------------------------------------------------------------------------

/// Where pi moves lane `(x, y)`: to `(y, 2x + 3y mod 5)`.
pub open spec fn pi_dest(i: int) -> int {
    i / 5 + 5 * ((2 * (i % 5) + 3 * (i / 5)) % 5)
}

/// The lanes visited from `(1, 0)` by repeated pi moves.
pub open spec fn pi_path(t: nat) -> int
    decreases t,
{
    if t == 0 {
        1
    } else {
        pi_dest(pi_path((t - 1) as nat))
    }
}

/// pi is a permutation of the 25 lanes, and `pi_source` undoes `pi_dest`.
pub proof fn lemma_pi_permutation()
    ensures
        forall|i: int|
            0 <= i < 25 ==> 0 <= #[trigger] pi_dest(i) < 25 && pi_source(pi_dest(i)) == i,
        forall|k: int|
            0 <= k < 25 ==> 0 <= #[trigger] pi_source(k) < 25 && pi_dest(pi_source(k)) == k,
{
    assert forall|i: int| 0 <= i < 25 implies 0 <= #[trigger] pi_dest(i) < 25 && pi_source(
        pi_dest(i),
    ) == i by {
        if i == 0 {
        } else if i == 1 {
        } else if i == 2 {
        } else if i == 3 {
        } else if i == 4 {
        } else if i == 5 {
        } else if i == 6 {
        } else if i == 7 {
        } else if i == 8 {
        } else if i == 9 {
        } else if i == 10 {
        } else if i == 11 {
        } else if i == 12 {
        } else if i == 13 {
        } else if i == 14 {
        } else if i == 15 {
        } else if i == 16 {
        } else if i == 17 {
        } else if i == 18 {
        } else if i == 19 {
        } else if i == 20 {
        } else if i == 21 {
        } else if i == 22 {
        } else if i == 23 {
        } else if i == 24 {
        }
    }
    assert forall|k: int| 0 <= k < 25 implies 0 <= #[trigger] pi_source(k) < 25 && pi_dest(
        pi_source(k),
    ) == k by {
        if k == 0 {
        } else if k == 1 {
        } else if k == 2 {
        } else if k == 3 {
        } else if k == 4 {
        } else if k == 5 {
        } else if k == 6 {
        } else if k == 7 {
        } else if k == 8 {
        } else if k == 9 {
        } else if k == 10 {
        } else if k == 11 {
        } else if k == 12 {
        } else if k == 13 {
        } else if k == 14 {
        } else if k == 15 {
        } else if k == 16 {
        } else if k == 17 {
        } else if k == 18 {
        } else if k == 19 {
        } else if k == 20 {
        } else if k == 21 {
        } else if k == 22 {
        } else if k == 23 {
        } else if k == 24 {
        }
    }
}

/// The rho offsets of FIPS 202: lane (0, 0) is not rotated, and the t-th
/// lane on the pi path from (1, 0) is rotated by `(t + 1)(t + 2) / 2` mod 64.
pub proof fn lemma_rho_offsets()
    ensures
        rho_offset(0) == 0,
        forall|t: nat|
            t < 24 ==> #[trigger] rho_offset(pi_path(t) as u64) as int == ((t + 1) * (t + 2) / 2)
                % 64,
{
    assert(pi_path(0) == 1);
    assert(pi_path(1) == 10);
    assert(pi_path(2) == 7);
    assert(pi_path(3) == 11);
    assert(pi_path(4) == 17);
    assert(pi_path(5) == 18);
    assert(pi_path(6) == 3);
    assert(pi_path(7) == 5);
    assert(pi_path(8) == 16);
    assert(pi_path(9) == 8);
    assert(pi_path(10) == 21);
    assert(pi_path(11) == 24);
    assert(pi_path(12) == 4);
    assert(pi_path(13) == 15);
    assert(pi_path(14) == 23);
    assert(pi_path(15) == 19);
    assert(pi_path(16) == 13);
    assert(pi_path(17) == 12);
    assert(pi_path(18) == 2);
    assert(pi_path(19) == 20);
    assert(pi_path(20) == 14);
    assert(pi_path(21) == 22);
    assert(pi_path(22) == 9);
    assert(pi_path(23) == 6);
    assert forall|t: nat| t < 24 implies #[trigger] rho_offset(pi_path(t) as u64) as int == ((t
        + 1) * (t + 2) / 2) % 64 by {
        if t == 0 {
            assert(((t + 1) * (t + 2) / 2) % 64 == 1) by (nonlinear_arith)
                requires
                    t == 0,
            ;
            assert(pi_path(t) == 1);
        } else if t == 1 {
            assert(((t + 1) * (t + 2) / 2) % 64 == 3) by (nonlinear_arith)
                requires
                    t == 1,
            ;
            assert(pi_path(t) == 10);
        } else if t == 2 {
            assert(((t + 1) * (t + 2) / 2) % 64 == 6) by (nonlinear_arith)
                requires
                    t == 2,
            ;
            assert(pi_path(t) == 7);
        } else if t == 3 {
            assert(((t + 1) * (t + 2) / 2) % 64 == 10) by (nonlinear_arith)
                requires
                    t == 3,
            ;
            assert(pi_path(t) == 11);
        } else if t == 4 {
            assert(((t + 1) * (t + 2) / 2) % 64 == 15) by (nonlinear_arith)
                requires
                    t == 4,
            ;
            assert(pi_path(t) == 17);
        } else if t == 5 {
            assert(((t + 1) * (t + 2) / 2) % 64 == 21) by (nonlinear_arith)
                requires
                    t == 5,
            ;
            assert(pi_path(t) == 18);
        } else if t == 6 {
            assert(((t + 1) * (t + 2) / 2) % 64 == 28) by (nonlinear_arith)
                requires
                    t == 6,
            ;
            assert(pi_path(t) == 3);
        } else if t == 7 {
            assert(((t + 1) * (t + 2) / 2) % 64 == 36) by (nonlinear_arith)
                requires
                    t == 7,
            ;
            assert(pi_path(t) == 5);
        } else if t == 8 {
            assert(((t + 1) * (t + 2) / 2) % 64 == 45) by (nonlinear_arith)
                requires
                    t == 8,
            ;
            assert(pi_path(t) == 16);
        } else if t == 9 {
            assert(((t + 1) * (t + 2) / 2) % 64 == 55) by (nonlinear_arith)
                requires
                    t == 9,
            ;
            assert(pi_path(t) == 8);
        } else if t == 10 {
            assert(((t + 1) * (t + 2) / 2) % 64 == 2) by (nonlinear_arith)
                requires
                    t == 10,
            ;
            assert(pi_path(t) == 21);
        } else if t == 11 {
            assert(((t + 1) * (t + 2) / 2) % 64 == 14) by (nonlinear_arith)
                requires
                    t == 11,
            ;
            assert(pi_path(t) == 24);
        } else if t == 12 {
            assert(((t + 1) * (t + 2) / 2) % 64 == 27) by (nonlinear_arith)
                requires
                    t == 12,
            ;
            assert(pi_path(t) == 4);
        } else if t == 13 {
            assert(((t + 1) * (t + 2) / 2) % 64 == 41) by (nonlinear_arith)
                requires
                    t == 13,
            ;
            assert(pi_path(t) == 15);
        } else if t == 14 {
            assert(((t + 1) * (t + 2) / 2) % 64 == 56) by (nonlinear_arith)
                requires
                    t == 14,
            ;
            assert(pi_path(t) == 23);
        } else if t == 15 {
            assert(((t + 1) * (t + 2) / 2) % 64 == 8) by (nonlinear_arith)
                requires
                    t == 15,
            ;
            assert(pi_path(t) == 19);
        } else if t == 16 {
            assert(((t + 1) * (t + 2) / 2) % 64 == 25) by (nonlinear_arith)
                requires
                    t == 16,
            ;
            assert(pi_path(t) == 13);
        } else if t == 17 {
            assert(((t + 1) * (t + 2) / 2) % 64 == 43) by (nonlinear_arith)
                requires
                    t == 17,
            ;
            assert(pi_path(t) == 12);
        } else if t == 18 {
            assert(((t + 1) * (t + 2) / 2) % 64 == 62) by (nonlinear_arith)
                requires
                    t == 18,
            ;
            assert(pi_path(t) == 2);
        } else if t == 19 {
            assert(((t + 1) * (t + 2) / 2) % 64 == 18) by (nonlinear_arith)
                requires
                    t == 19,
            ;
            assert(pi_path(t) == 20);
        } else if t == 20 {
            assert(((t + 1) * (t + 2) / 2) % 64 == 39) by (nonlinear_arith)
                requires
                    t == 20,
            ;
            assert(pi_path(t) == 14);
        } else if t == 21 {
            assert(((t + 1) * (t + 2) / 2) % 64 == 61) by (nonlinear_arith)
                requires
                    t == 21,
            ;
            assert(pi_path(t) == 22);
        } else if t == 22 {
            assert(((t + 1) * (t + 2) / 2) % 64 == 20) by (nonlinear_arith)
                requires
                    t == 22,
            ;
            assert(pi_path(t) == 9);
        } else if t == 23 {
            assert(((t + 1) * (t + 2) / 2) % 64 == 44) by (nonlinear_arith)
                requires
                    t == 23,
            ;
            assert(pi_path(t) == 6);
        }
    }
}

/// rho and pi move every lane `(x, y)` to `(y, 2x + 3y mod 5)`, rotated by its offset.
pub proof fn lemma_rho_pi_moves_lanes(a: Seq<u64>)
    ensures
        forall|i: int|
            0 <= i < 25 ==> #[trigger] rho_pi(a)[pi_dest(i)] == rotl(a[i], rho_offset(i as u64)),
{
    lemma_pi_permutation();
    assert forall|i: int| 0 <= i < 25 implies #[trigger] rho_pi(a)[pi_dest(i)] == rotl(
        a[i],
        rho_offset(i as u64),
    ) by {
        assert(pi_source(pi_dest(i)) == i);
    }
}

proof fn lemma_xor_cancel(x: u64, e: u64)
    ensures
        (x ^ e) ^ x == e,
        x ^ 0 == x,
        rotl(0, 1) == 0,
        0u64 ^ (!0u64 & 0u64) == 0,
{
    assert((x ^ e) ^ x == e) by (bit_vector);
    assert(x ^ 0 == x) by (bit_vector);
    assert(rotl(0, 1) == 0) by (bit_vector);
    assert(0u64 ^ (!0u64 & 0u64) == 0) by (bit_vector);
}

/// theta adds one and the same value to every lane of a column.
pub proof fn lemma_theta_per_column(a: Seq<u64>)
    requires
        a.len() == 25,
    ensures
        forall|i: int|
            0 <= i < 25 ==> #[trigger] (theta(a)[i] ^ a[i]) == theta(a)[i % 5] ^ a[i % 5],
{
    assert forall|i: int| 0 <= i < 25 implies #[trigger] (theta(a)[i] ^ a[i]) == theta(a)[i % 5]
        ^ a[i % 5] by {
        lemma_xor_cancel(a[i], theta_effect(a, i % 5));
        lemma_xor_cancel(a[i % 5], theta_effect(a, i % 5));
    }
}

/// A state whose columns all have even parity is left unchanged by theta.
pub proof fn lemma_theta_column_kernel(a: Seq<u64>)
    requires
        a.len() == 25,
        forall|x: int| 0 <= x < 5 ==> #[trigger] column_parity(a, x) == 0,
    ensures
        theta(a) == a,
{
    assert forall|i: int| 0 <= i < 25 implies #[trigger] theta(a)[i] == a[i] by {
        let x = i % 5;
        assert(column_parity(a, (x + 4) % 5) == 0);
        assert(column_parity(a, (x + 1) % 5) == 0);
        lemma_xor_cancel(a[i], 0);
        lemma_xor_cancel(0, 0);
        assert(theta_effect(a, x) == 0u64 ^ rotl(0, 1));
    }
    assert(theta(a) =~= a);
}

/// chi works row by row: two states that agree on a row agree on it after chi;
/// and chi leaves the zero state as it is.
pub proof fn lemma_chi_rows(a: Seq<u64>, b: Seq<u64>, y: int)
    requires
        a.len() == 25,
        b.len() == 25,
        0 <= y < 5,
        forall|x: int| 0 <= x < 5 ==> #[trigger] a[x + 5 * y] == b[x + 5 * y],
    ensures
        forall|x: int| 0 <= x < 5 ==> #[trigger] chi(a)[x + 5 * y] == chi(b)[x + 5 * y],
        chi(Seq::new(25, |i: int| 0u64)) == Seq::new(25, |i: int| 0u64),
{
    assert forall|x: int| 0 <= x < 5 implies #[trigger] chi(a)[x + 5 * y] == chi(b)[x + 5 * y] by {
        let i = x + 5 * y;
        assert(i % 5 == x && i / 5 == y);
        assert(a[(x + 1) % 5 + 5 * y] == b[(x + 1) % 5 + 5 * y]);
        assert(a[(x + 2) % 5 + 5 * y] == b[(x + 2) % 5 + 5 * y]);
    }
    lemma_xor_cancel(0, 0);
    assert(chi(Seq::new(25, |i: int| 0u64)) =~= Seq::new(25, |i: int| 0u64));
}

/// iota changes lane (0, 0) only, by the round constant.
pub proof fn lemma_iota_lane_zero(a: Seq<u64>, r: u64)
    requires
        a.len() == 25,
    ensures
        iota(a, r)[0] == a[0] ^ round_constant(r),
        forall|i: int| 1 <= i < 25 ==> #[trigger] iota(a, r)[i] == a[i],
{
}

/// The little-endian value of eight bytes.
pub open spec fn le_value8(b0: u8, b1: u8, b2: u8, b3: u8, b4: u8, b5: u8, b6: u8, b7: u8) -> int {
    b0 as int + b1 as int * 0x100 + b2 as int * 0x1_0000 + b3 as int * 0x100_0000 + b4 as int
        * 0x1_0000_0000 + b5 as int * 0x100_0000_0000 + b6 as int * 0x1_0000_0000_0000 + b7 as int
        * 0x100_0000_0000_0000
}

proof fn lemma_lane_le_value(b0: u8, b1: u8, b2: u8, b3: u8, b4: u8, b5: u8, b6: u8, b7: u8)
    ensures
        lane_le(b0, b1, b2, b3, b4, b5, b6, b7) as int == le_value8(b0, b1, b2, b3, b4, b5, b6, b7),
{
    assert(lane_le(b0, b1, b2, b3, b4, b5, b6, b7) as int == b0 as int + b1 as int * 0x100 + b2 as int
        * 0x1_0000 + b3 as int * 0x100_0000 + b4 as int * 0x1_0000_0000 + b5 as int
        * 0x100_0000_0000 + b6 as int * 0x1_0000_0000_0000 + b7 as int * 0x100_0000_0000_0000)
        by (bit_vector);
}

proof fn lemma_lane_bytes_value(w: u64)
    ensures
        w as int == le_value8(
            lane_byte(w, 0),
            lane_byte(w, 1),
            lane_byte(w, 2),
            lane_byte(w, 3),
            lane_byte(w, 4),
            lane_byte(w, 5),
            lane_byte(w, 6),
            lane_byte(w, 7),
        ),
{
    let (b0, b1, b2, b3) = (lane_byte(w, 0), lane_byte(w, 1), lane_byte(w, 2), lane_byte(w, 3));
    let (b4, b5, b6, b7) = (lane_byte(w, 4), lane_byte(w, 5), lane_byte(w, 6), lane_byte(w, 7));
    assert(w as int == b0 as int + b1 as int * 0x100 + b2 as int * 0x1_0000 + b3 as int * 0x100_0000
        + b4 as int * 0x1_0000_0000 + b5 as int * 0x100_0000_0000 + b6 as int * 0x1_0000_0000_0000
        + b7 as int * 0x100_0000_0000_0000) by (bit_vector)
        requires
            b0 == lane_byte(w, 0),
            b1 == lane_byte(w, 1),
            b2 == lane_byte(w, 2),
            b3 == lane_byte(w, 3),
            b4 == lane_byte(w, 4),
            b5 == lane_byte(w, 5),
            b6 == lane_byte(w, 6),
            b7 == lane_byte(w, 7),
    ;
}

/// Keccak's padding of a message shorter than the rate: the message, a byte
/// 0x01 right after it, 0x80 in the last byte of the block (0x81 where the two
/// fall together), and zeros in between.
pub proof fn lemma_pad_block(m: Seq<u8>)
    requires
        m.len() < 136,
    ensures
        pad_block(m).len() == 136,
        pad_block(m).subrange(0, m.len() as int) == m,
        m.len() < 135 ==> pad_block(m)[m.len() as int] == 0x01 && pad_block(m)[135] == 0x80,
        m.len() == 135 ==> pad_block(m)[135] == 0x81,
        forall|i: int| m.len() < i < 135 ==> #[trigger] pad_block(m)[i] == 0,
{
    assert(pad_block(m).subrange(0, m.len() as int) =~= m);
}

/// Absorbing a block xors it into the zero state: lane `i` of the first 17
/// holds bytes `8i .. 8i + 8` of the block, little-endian; the other lanes stay 0.
pub proof fn lemma_absorb_block(block: Seq<u8>)
    requires
        block.len() == 136,
    ensures
        absorb_block(block).len() == 25,
        forall|i: int|
            0 <= i < 17 ==> #[trigger] absorb_block(block)[i] as int == le_value8(
                block[8 * i],
                block[8 * i + 1],
                block[8 * i + 2],
                block[8 * i + 3],
                block[8 * i + 4],
                block[8 * i + 5],
                block[8 * i + 6],
                block[8 * i + 7],
            ),
        forall|i: int| 17 <= i < 25 ==> #[trigger] absorb_block(block)[i] == 0,
{
    assert forall|i: int| 0 <= i < 17 implies #[trigger] absorb_block(block)[i] as int == le_value8(
        block[8 * i],
        block[8 * i + 1],
        block[8 * i + 2],
        block[8 * i + 3],
        block[8 * i + 4],
        block[8 * i + 5],
        block[8 * i + 6],
        block[8 * i + 7],
    ) by {
        lemma_lane_le_value(
            block[8 * i],
            block[8 * i + 1],
            block[8 * i + 2],
            block[8 * i + 3],
            block[8 * i + 4],
            block[8 * i + 5],
            block[8 * i + 6],
            block[8 * i + 7],
        );
    }
}

/// The digest is the first four lanes of the state written out little-endian:
/// bytes `8k .. 8k + 8` of the digest spell lane `k`.
pub proof fn lemma_squeeze(s: Seq<u64>)
    requires
        s.len() == 25,
    ensures
        squeeze(s).len() == 32,
        forall|k: int|
            0 <= k < 4 ==> #[trigger] s[k] as int == le_value8(
                squeeze(s)[8 * k],
                squeeze(s)[8 * k + 1],
                squeeze(s)[8 * k + 2],
                squeeze(s)[8 * k + 3],
                squeeze(s)[8 * k + 4],
                squeeze(s)[8 * k + 5],
                squeeze(s)[8 * k + 6],
                squeeze(s)[8 * k + 7],
            ),
{
    assert forall|k: int| 0 <= k < 4 implies #[trigger] s[k] as int == le_value8(
        squeeze(s)[8 * k],
        squeeze(s)[8 * k + 1],
        squeeze(s)[8 * k + 2],
        squeeze(s)[8 * k + 3],
        squeeze(s)[8 * k + 4],
        squeeze(s)[8 * k + 5],
        squeeze(s)[8 * k + 6],
        squeeze(s)[8 * k + 7],
    ) by {
        let d = squeeze(s);
        assert(d[8 * k] == lane_byte(s[k], 0));
        assert(d[8 * k + 1] == lane_byte(s[k], 1));
        assert(d[8 * k + 2] == lane_byte(s[k], 2));
        assert(d[8 * k + 3] == lane_byte(s[k], 3));
        assert(d[8 * k + 4] == lane_byte(s[k], 4));
        assert(d[8 * k + 5] == lane_byte(s[k], 5));
        assert(d[8 * k + 6] == lane_byte(s[k], 6));
        assert(d[8 * k + 7] == lane_byte(s[k], 7));
        lemma_lane_bytes_value(s[k]);
    }
}

// ---------------------------------------------------------------------------
// The round constants, as FIPS 202 generates them
// ---------------------------------------------------------------------------

/// The register of FIPS 202's round-constant generator (Algorithm 5) after `t`
/// steps, bits R[0] .. R[7]: it starts at 1, and each step shifts the bits up
/// by one and feeds the bit shifted out back into bits 0, 4, 5 and 6.
pub open spec fn rc_register(t: nat) -> (bool, bool, bool, bool, bool, bool, bool, bool)
    decreases t,
{
    if t == 0 {
        (true, false, false, false, false, false, false, false)
    } else {
        let r = rc_register((t - 1) as nat);
        let b = r.7;
        (b, r.0, r.1, r.2, r.3 != b, r.4 != b, r.5 != b, r.6)
    }
}

/// `rc(t)` of FIPS 202: bit R[0] of the register after `t mod 255` steps.
pub open spec fn rc_bit(t: nat) -> bool {
    rc_register(t % 255).0
}

/// Bit `2^j - 1` of a round constant, where `rc(j + 7 i)` of round `i` goes.
pub open spec fn rc_weight(j: nat) -> nat {
    if j == 0 {
        1
    } else if j == 1 {
        2
    } else if j == 2 {
        8
    } else if j == 3 {
        128
    } else if j == 4 {
        0x8000
    } else if j == 5 {
        0x8000_0000
    } else {
        0x8000_0000_0000_0000
    }
}

/// The round constant of round `i` as FIPS 202 (Algorithm 6) builds it from `rc`.
pub open spec fn round_constant_fips(i: nat) -> nat {
    (if rc_bit(7 * i) { rc_weight(0) } else { 0 }) + (if rc_bit(1 + 7 * i) { rc_weight(1) } else { 0 })
        + (if rc_bit(2 + 7 * i) { rc_weight(2) } else { 0 }) + (if rc_bit(3 + 7 * i) { rc_weight(3) } else { 0 })
        + (if rc_bit(4 + 7 * i) { rc_weight(4) } else { 0 }) + (if rc_bit(5 + 7 * i) { rc_weight(5) } else { 0 })
        + (if rc_bit(6 + 7 * i) { rc_weight(6) } else { 0 })
}

/// The round constants are those FIPS 202 generates with its register.
#[verifier::rlimit(100)]
pub proof fn lemma_round_constants()
    ensures
        forall|r: nat| r < 24 ==> #[trigger] round_constant(r as u64) as nat == round_constant_fips(r),
{
    assert(rc_register(0) == (true, false, false, false, false, false, false, false));
    assert(rc_register(1) == (false, true, false, false, false, false, false, false));
    assert(rc_register(2) == (false, false, true, false, false, false, false, false));
    assert(rc_register(3) == (false, false, false, true, false, false, false, false));
    assert(rc_register(4) == (false, false, false, false, true, false, false, false));
    assert(rc_register(5) == (false, false, false, false, false, true, false, false));
    assert(rc_register(6) == (false, false, false, false, false, false, true, false));
    assert(rc_register(7) == (false, false, false, false, false, false, false, true));
    assert(rc_register(8) == (true, false, false, false, true, true, true, false));
    assert(rc_register(9) == (false, true, false, false, false, true, true, true));
    assert(rc_register(10) == (true, false, true, false, true, true, false, true));
    assert(rc_register(11) == (true, true, false, true, true, false, false, false));
    assert(rc_register(12) == (false, true, true, false, true, true, false, false));
    assert(rc_register(13) == (false, false, true, true, false, true, true, false));
    assert(rc_register(14) == (false, false, false, true, true, false, true, true));
    assert(rc_register(15) == (true, false, false, false, false, false, true, true));
    assert(rc_register(16) == (true, true, false, false, true, true, true, true));
    assert(rc_register(17) == (true, true, true, false, true, false, false, true));
    assert(rc_register(18) == (true, true, true, true, true, false, true, false));
    assert(rc_register(19) == (false, true, true, true, true, true, false, true));
    assert(rc_register(20) == (true, false, true, true, false, false, false, false));
    assert(rc_register(21) == (false, true, false, true, true, false, false, false));
    assert(rc_register(22) == (false, false, true, false, true, true, false, false));
    assert(rc_register(23) == (false, false, false, true, false, true, true, false));
    assert(rc_register(24) == (false, false, false, false, true, false, true, true));
    assert(rc_register(25) == (true, false, false, false, true, false, true, true));
    assert(rc_register(26) == (true, true, false, false, true, false, true, true));
    assert(rc_register(27) == (true, true, true, false, true, false, true, true));
    assert(rc_register(28) == (true, true, true, true, true, false, true, true));
    assert(rc_register(29) == (true, true, true, true, false, false, true, true));
    assert(rc_register(30) == (true, true, true, true, false, true, true, true));
    assert(rc_register(31) == (true, true, true, true, false, true, false, true));
    assert(rc_register(32) == (true, true, true, true, false, true, false, false));
    assert(rc_register(33) == (false, true, true, true, true, false, true, false));
    assert(rc_register(34) == (false, false, true, true, true, true, false, true));
    assert(rc_register(35) == (true, false, false, true, false, false, false, false));
    assert(rc_register(36) == (false, true, false, false, true, false, false, false));
    assert(rc_register(37) == (false, false, true, false, false, true, false, false));
    assert(rc_register(38) == (false, false, false, true, false, false, true, false));
    assert(rc_register(39) == (false, false, false, false, true, false, false, true));
    assert(rc_register(40) == (true, false, false, false, true, false, true, false));
    assert(rc_register(41) == (false, true, false, false, false, true, false, true));
    assert(rc_register(42) == (true, false, true, false, true, true, false, false));
    assert(rc_register(43) == (false, true, false, true, false, true, true, false));
    assert(rc_register(44) == (false, false, true, false, true, false, true, true));
    assert(rc_register(45) == (true, false, false, true, true, false, true, true));
    assert(rc_register(46) == (true, true, false, false, false, false, true, true));
    assert(rc_register(47) == (true, true, true, false, true, true, true, true));
    assert(rc_register(48) == (true, true, true, true, true, false, false, true));
    assert(rc_register(49) == (true, true, true, true, false, false, true, false));
    assert(rc_register(50) == (false, true, true, true, true, false, false, true));
    assert(rc_register(51) == (true, false, true, true, false, false, true, false));
    assert(rc_register(52) == (false, true, false, true, true, false, false, true));
    assert(rc_register(53) == (true, false, true, false, false, false, true, false));
    assert(rc_register(54) == (false, true, false, true, false, false, false, true));
    assert(rc_register(55) == (true, false, true, false, false, true, true, false));
    assert(rc_register(56) == (false, true, false, true, false, false, true, true));
    assert(rc_register(57) == (true, false, true, false, false, true, true, true));
    assert(rc_register(58) == (true, true, false, true, true, true, false, true));
    assert(rc_register(59) == (true, true, true, false, false, false, false, false));
    assert(rc_register(60) == (false, true, true, true, false, false, false, false));
    assert(rc_register(61) == (false, false, true, true, true, false, false, false));
    assert(rc_register(62) == (false, false, false, true, true, true, false, false));
    assert(rc_register(63) == (false, false, false, false, true, true, true, false));
    assert(rc_register(64) == (false, false, false, false, false, true, true, true));
    assert(rc_register(65) == (true, false, false, false, true, true, false, true));
    assert(rc_register(66) == (true, true, false, false, true, false, false, false));
    assert(rc_register(67) == (false, true, true, false, false, true, false, false));
    assert(rc_register(68) == (false, false, true, true, false, false, true, false));
    assert(rc_register(69) == (false, false, false, true, true, false, false, true));
    assert(rc_register(70) == (true, false, false, false, false, false, true, false));
    assert(rc_register(71) == (false, true, false, false, false, false, false, true));
    assert(rc_register(72) == (true, false, true, false, true, true, true, false));
    assert(rc_register(73) == (false, true, false, true, false, true, true, true));
    assert(rc_register(74) == (true, false, true, false, false, true, false, true));
    assert(rc_register(75) == (true, true, false, true, true, true, false, false));
    assert(rc_register(76) == (false, true, true, false, true, true, true, false));
    assert(rc_register(77) == (false, false, true, true, false, true, true, true));
    assert(rc_register(78) == (true, false, false, true, false, true, false, true));
    assert(rc_register(79) == (true, true, false, false, false, true, false, false));
    assert(rc_register(80) == (false, true, true, false, false, false, true, false));
    assert(rc_register(81) == (false, false, true, true, false, false, false, true));
    assert(rc_register(82) == (true, false, false, true, false, true, true, false));
    assert(rc_register(83) == (false, true, false, false, true, false, true, true));
    assert(rc_register(84) == (true, false, true, false, true, false, true, true));
    assert(rc_register(85) == (true, true, false, true, true, false, true, true));
    assert(rc_register(86) == (true, true, true, false, false, false, true, true));
    assert(rc_register(87) == (true, true, true, true, true, true, true, true));
    assert(rc_register(88) == (true, true, true, true, false, false, false, true));
    assert(rc_register(89) == (true, true, true, true, false, true, true, false));
    assert(rc_register(90) == (false, true, true, true, true, false, true, true));
    assert(rc_register(91) == (true, false, true, true, false, false, true, true));
    assert(rc_register(92) == (true, true, false, true, false, true, true, true));
    assert(rc_register(93) == (true, true, true, false, false, true, false, true));
    assert(rc_register(94) == (true, true, true, true, true, true, false, false));
    assert(rc_register(95) == (false, true, true, true, true, true, true, false));
    assert(rc_register(96) == (false, false, true, true, true, true, true, true));
    assert(rc_register(97) == (true, false, false, true, false, false, false, true));
    assert(rc_register(98) == (true, true, false, false, false, true, true, false));
    assert(rc_register(99) == (false, true, true, false, false, false, true, true));
    assert(rc_register(100) == (true, false, true, true, true, true, true, true));
    assert(rc_register(101) == (true, true, false, true, false, false, false, true));
    assert(rc_register(102) == (true, true, true, false, false, true, true, false));
    assert(rc_register(103) == (false, true, true, true, false, false, true, true));
    assert(rc_register(104) == (true, false, true, true, false, true, true, true));
    assert(rc_register(105) == (true, true, false, true, false, true, false, true));
    assert(rc_register(106) == (true, true, true, false, false, true, false, false));
    assert(rc_register(107) == (false, true, true, true, false, false, true, false));
    assert(rc_register(108) == (false, false, true, true, true, false, false, true));
    assert(rc_register(109) == (true, false, false, true, false, false, true, false));
    assert(rc_register(110) == (false, true, false, false, true, false, false, true));
    assert(rc_register(111) == (true, false, true, false, true, false, true, false));
    assert(rc_register(112) == (false, true, false, true, false, true, false, true));
    assert(rc_register(113) == (true, false, true, false, false, true, false, false));
    assert(rc_register(114) == (false, true, false, true, false, false, true, false));
    assert(rc_register(115) == (false, false, true, false, true, false, false, true));
    assert(rc_register(116) == (true, false, false, true, true, false, true, false));
    assert(rc_register(117) == (false, true, false, false, true, true, false, true));
    assert(rc_register(118) == (true, false, true, false, true, false, false, false));
    assert(rc_register(119) == (false, true, false, true, false, true, false, false));
    assert(rc_register(120) == (false, false, true, false, true, false, true, false));
    assert(rc_register(121) == (false, false, false, true, false, true, false, true));
    assert(rc_register(122) == (true, false, false, false, false, true, false, false));
    assert(rc_register(123) == (false, true, false, false, false, false, true, false));
    assert(rc_register(124) == (false, false, true, false, false, false, false, true));
    assert(rc_register(125) == (true, false, false, true, true, true, true, false));
    assert(rc_register(126) == (false, true, false, false, true, true, true, true));
    assert(rc_register(127) == (true, false, true, false, true, false, false, true));
    assert(rc_register(128) == (true, true, false, true, true, false, true, false));
    assert(rc_register(129) == (false, true, true, false, true, true, false, true));
    assert(rc_register(130) == (true, false, true, true, true, false, false, false));
    assert(rc_register(131) == (false, true, false, true, true, true, false, false));
    assert(rc_register(132) == (false, false, true, false, true, true, true, false));
    assert(rc_register(133) == (false, false, false, true, false, true, true, true));
    assert(rc_register(134) == (true, false, false, false, false, true, false, true));
    assert(rc_register(135) == (true, true, false, false, true, true, false, false));
    assert(rc_register(136) == (false, true, true, false, false, true, true, false));
    assert(rc_register(137) == (false, false, true, true, false, false, true, true));
    assert(rc_register(138) == (true, false, false, true, false, true, true, true));
    assert(rc_register(139) == (true, true, false, false, false, true, false, true));
    assert(rc_register(140) == (true, true, true, false, true, true, false, false));
    assert(rc_register(141) == (false, true, true, true, false, true, true, false));
    assert(rc_register(142) == (false, false, true, true, true, false, true, true));
    assert(rc_register(143) == (true, false, false, true, false, false, true, true));
    assert(rc_register(144) == (true, true, false, false, false, true, true, true));
    assert(rc_register(145) == (true, true, true, false, true, true, false, true));
    assert(rc_register(146) == (true, true, true, true, true, false, false, false));
    assert(rc_register(147) == (false, true, true, true, true, true, false, false));
    assert(rc_register(148) == (false, false, true, true, true, true, true, false));
    assert(rc_register(149) == (false, false, false, true, true, true, true, true));
    assert(rc_register(150) == (true, false, false, false, false, false, false, true));
    assert(rc_register(151) == (true, true, false, false, true, true, true, false));
    assert(rc_register(152) == (false, true, true, false, false, true, true, true));
    assert(rc_register(153) == (true, false, true, true, true, true, false, true));
    assert(rc_register(154) == (true, true, false, true, false, false, false, false));
    assert(rc_register(155) == (false, true, true, false, true, false, false, false));
    assert(rc_register(156) == (false, false, true, true, false, true, false, false));
    assert(rc_register(157) == (false, false, false, true, true, false, true, false));
    assert(rc_register(158) == (false, false, false, false, true, true, false, true));
    assert(rc_register(159) == (true, false, false, false, true, false, false, false));
    assert(rc_register(160) == (false, true, false, false, false, true, false, false));
    assert(rc_register(161) == (false, false, true, false, false, false, true, false));
    assert(rc_register(162) == (false, false, false, true, false, false, false, true));
    assert(rc_register(163) == (true, false, false, false, false, true, true, false));
    assert(rc_register(164) == (false, true, false, false, false, false, true, true));
    assert(rc_register(165) == (true, false, true, false, true, true, true, true));
    assert(rc_register(166) == (true, true, false, true, true, false, false, true));
    assert(rc_register(167) == (true, true, true, false, false, false, true, false));
    assert forall|r: nat| r < 24 implies #[trigger] round_constant(r as u64) as nat
        == round_constant_fips(r) by {
        if r == 0 {
            assert(rc_bit(0) == true);
            assert(rc_bit(1) == false);
            assert(rc_bit(2) == false);
            assert(rc_bit(3) == false);
            assert(rc_bit(4) == false);
            assert(rc_bit(5) == false);
            assert(rc_bit(6) == false);
        } else if r == 1 {
            assert(rc_bit(7) == false);
            assert(rc_bit(8) == true);
            assert(rc_bit(9) == false);
            assert(rc_bit(10) == true);
            assert(rc_bit(11) == true);
            assert(rc_bit(12) == false);
            assert(rc_bit(13) == false);
        } else if r == 2 {
            assert(rc_bit(14) == false);
            assert(rc_bit(15) == true);
            assert(rc_bit(16) == true);
            assert(rc_bit(17) == true);
            assert(rc_bit(18) == true);
            assert(rc_bit(19) == false);
            assert(rc_bit(20) == true);
        } else if r == 3 {
            assert(rc_bit(21) == false);
            assert(rc_bit(22) == false);
            assert(rc_bit(23) == false);
            assert(rc_bit(24) == false);
            assert(rc_bit(25) == true);
            assert(rc_bit(26) == true);
            assert(rc_bit(27) == true);
        } else if r == 4 {
            assert(rc_bit(28) == true);
            assert(rc_bit(29) == true);
            assert(rc_bit(30) == true);
            assert(rc_bit(31) == true);
            assert(rc_bit(32) == true);
            assert(rc_bit(33) == false);
            assert(rc_bit(34) == false);
        } else if r == 5 {
            assert(rc_bit(35) == true);
            assert(rc_bit(36) == false);
            assert(rc_bit(37) == false);
            assert(rc_bit(38) == false);
            assert(rc_bit(39) == false);
            assert(rc_bit(40) == true);
            assert(rc_bit(41) == false);
        } else if r == 6 {
            assert(rc_bit(42) == true);
            assert(rc_bit(43) == false);
            assert(rc_bit(44) == false);
            assert(rc_bit(45) == true);
            assert(rc_bit(46) == true);
            assert(rc_bit(47) == true);
            assert(rc_bit(48) == true);
        } else if r == 7 {
            assert(rc_bit(49) == true);
            assert(rc_bit(50) == false);
            assert(rc_bit(51) == true);
            assert(rc_bit(52) == false);
            assert(rc_bit(53) == true);
            assert(rc_bit(54) == false);
            assert(rc_bit(55) == true);
        } else if r == 8 {
            assert(rc_bit(56) == false);
            assert(rc_bit(57) == true);
            assert(rc_bit(58) == true);
            assert(rc_bit(59) == true);
            assert(rc_bit(60) == false);
            assert(rc_bit(61) == false);
            assert(rc_bit(62) == false);
        } else if r == 9 {
            assert(rc_bit(63) == false);
            assert(rc_bit(64) == false);
            assert(rc_bit(65) == true);
            assert(rc_bit(66) == true);
            assert(rc_bit(67) == false);
            assert(rc_bit(68) == false);
            assert(rc_bit(69) == false);
        } else if r == 10 {
            assert(rc_bit(70) == true);
            assert(rc_bit(71) == false);
            assert(rc_bit(72) == true);
            assert(rc_bit(73) == false);
            assert(rc_bit(74) == true);
            assert(rc_bit(75) == true);
            assert(rc_bit(76) == false);
        } else if r == 11 {
            assert(rc_bit(77) == false);
            assert(rc_bit(78) == true);
            assert(rc_bit(79) == true);
            assert(rc_bit(80) == false);
            assert(rc_bit(81) == false);
            assert(rc_bit(82) == true);
            assert(rc_bit(83) == false);
        } else if r == 12 {
            assert(rc_bit(84) == true);
            assert(rc_bit(85) == true);
            assert(rc_bit(86) == true);
            assert(rc_bit(87) == true);
            assert(rc_bit(88) == true);
            assert(rc_bit(89) == true);
            assert(rc_bit(90) == false);
        } else if r == 13 {
            assert(rc_bit(91) == true);
            assert(rc_bit(92) == true);
            assert(rc_bit(93) == true);
            assert(rc_bit(94) == true);
            assert(rc_bit(95) == false);
            assert(rc_bit(96) == false);
            assert(rc_bit(97) == true);
        } else if r == 14 {
            assert(rc_bit(98) == true);
            assert(rc_bit(99) == false);
            assert(rc_bit(100) == true);
            assert(rc_bit(101) == true);
            assert(rc_bit(102) == true);
            assert(rc_bit(103) == false);
            assert(rc_bit(104) == true);
        } else if r == 15 {
            assert(rc_bit(105) == true);
            assert(rc_bit(106) == true);
            assert(rc_bit(107) == false);
            assert(rc_bit(108) == false);
            assert(rc_bit(109) == true);
            assert(rc_bit(110) == false);
            assert(rc_bit(111) == true);
        } else if r == 16 {
            assert(rc_bit(112) == false);
            assert(rc_bit(113) == true);
            assert(rc_bit(114) == false);
            assert(rc_bit(115) == false);
            assert(rc_bit(116) == true);
            assert(rc_bit(117) == false);
            assert(rc_bit(118) == true);
        } else if r == 17 {
            assert(rc_bit(119) == false);
            assert(rc_bit(120) == false);
            assert(rc_bit(121) == false);
            assert(rc_bit(122) == true);
            assert(rc_bit(123) == false);
            assert(rc_bit(124) == false);
            assert(rc_bit(125) == true);
        } else if r == 18 {
            assert(rc_bit(126) == false);
            assert(rc_bit(127) == true);
            assert(rc_bit(128) == true);
            assert(rc_bit(129) == false);
            assert(rc_bit(130) == true);
            assert(rc_bit(131) == false);
            assert(rc_bit(132) == false);
        } else if r == 19 {
            assert(rc_bit(133) == false);
            assert(rc_bit(134) == true);
            assert(rc_bit(135) == true);
            assert(rc_bit(136) == false);
            assert(rc_bit(137) == false);
            assert(rc_bit(138) == true);
            assert(rc_bit(139) == true);
        } else if r == 20 {
            assert(rc_bit(140) == true);
            assert(rc_bit(141) == false);
            assert(rc_bit(142) == false);
            assert(rc_bit(143) == true);
            assert(rc_bit(144) == true);
            assert(rc_bit(145) == true);
            assert(rc_bit(146) == true);
        } else if r == 21 {
            assert(rc_bit(147) == false);
            assert(rc_bit(148) == false);
            assert(rc_bit(149) == false);
            assert(rc_bit(150) == true);
            assert(rc_bit(151) == true);
            assert(rc_bit(152) == false);
            assert(rc_bit(153) == true);
        } else if r == 22 {
            assert(rc_bit(154) == true);
            assert(rc_bit(155) == false);
            assert(rc_bit(156) == false);
            assert(rc_bit(157) == false);
            assert(rc_bit(158) == false);
            assert(rc_bit(159) == true);
            assert(rc_bit(160) == false);
        } else if r == 23 {
            assert(rc_bit(161) == false);
            assert(rc_bit(162) == false);
            assert(rc_bit(163) == true);
            assert(rc_bit(164) == false);
            assert(rc_bit(165) == true);
            assert(rc_bit(166) == true);
            assert(rc_bit(167) == true);
        }
    }
}

/// Rotating left by `n` and then by `64 - n` gives the lane back; rotating
/// by 0 changes nothing; a single bit `k` moves to bit `k + n` (mod 64).
pub proof fn lemma_rotl(x: u64, n: u64, k: u64)
    requires
        n < 64,
        k < 64,
    ensures
        rotl(x, 0) == x,
        0 < n ==> rotl(rotl(x, n), (64 - n) as u64) == x,
        rotl(1u64 << k, n) == 1u64 << ((k + n) % 64) as u64,
{
    if 0 < n {
        assert(rotl(rotl(x, n), (64 - n) as u64) == x) by (bit_vector)
            requires
                0 < n < 64,
        ;
    }
    assert(rotl(1u64 << k, n) == 1u64 << ((k + n) % 64) as u64) by (bit_vector)
        requires
            n < 64,
            k < 64,
    ;
}

/// The round function and its steps over the lanes `(x, y)`, written out as
/// FIPS 202 gives them, for every state.
pub proof fn lemma_round_steps(a: Seq<u64>, r: u64)
    requires
        a.len() == 25,
    ensures
        keccak_round(a, r) == iota(chi(rho_pi(theta(a))), r),
        forall|x: int, y: int|
            0 <= x < 5 && 0 <= y < 5 ==> #[trigger] theta(a)[x + 5 * y] == a[x + 5 * y] ^ ((a[(x
                + 4) % 5] ^ a[(x + 4) % 5 + 5] ^ a[(x + 4) % 5 + 10] ^ a[(x + 4) % 5 + 15] ^ a[(x
                + 4) % 5 + 20]) ^ rotl(
                a[(x + 1) % 5] ^ a[(x + 1) % 5 + 5] ^ a[(x + 1) % 5 + 10] ^ a[(x + 1) % 5 + 15]
                    ^ a[(x + 1) % 5 + 20],
                1,
            )),
        forall|x: int, y: int|
            0 <= x < 5 && 0 <= y < 5 ==> #[trigger] chi(a)[x + 5 * y] == a[x + 5 * y] ^ (!a[(x
                + 1) % 5 + 5 * y] & a[(x + 2) % 5 + 5 * y]),
{
    assert forall|x: int, y: int| 0 <= x < 5 && 0 <= y < 5 implies #[trigger] theta(a)[x + 5 * y]
        == a[x + 5 * y] ^ ((a[(x + 4) % 5] ^ a[(x + 4) % 5 + 5] ^ a[(x + 4) % 5 + 10] ^ a[(x + 4)
        % 5 + 15] ^ a[(x + 4) % 5 + 20]) ^ rotl(
        a[(x + 1) % 5] ^ a[(x + 1) % 5 + 5] ^ a[(x + 1) % 5 + 10] ^ a[(x + 1) % 5 + 15] ^ a[(x
            + 1) % 5 + 20],
        1,
    )) by {
        assert((x + 5 * y) % 5 == x);
    }
    assert forall|x: int, y: int| 0 <= x < 5 && 0 <= y < 5 implies #[trigger] chi(a)[x + 5 * y]
        == a[x + 5 * y] ^ (!a[(x + 1) % 5 + 5 * y] & a[(x + 2) % 5 + 5 * y]) by {
        assert((x + 5 * y) % 5 == x && (x + 5 * y) / 5 == y);
    }
}

// ---------------------------------------------------------------------------
// Executable permutation
// ---------------------------------------------------------------------------

/// Left rotation of a lane, as the kernel's `rotl64`.
pub fn rotl64(x: u64, n: u64) -> (r: u64)
    requires
        n < 64,
    ensures
        r == rotl(x, n),
{
    if n == 0 {
        x
    } else {
        (x << n) | (x >> (64 - n))
    }
}

fn rho_offset_of(i: u64) -> (r: u64)
    requires
        i < 25,
    ensures
        r == rho_offset(i),
        r < 64,
{
    match i {
            0 => 0,
            1 => 1,
            2 => 62,
            3 => 28,
            4 => 27,
            5 => 36,
            6 => 44,
            7 => 6,
            8 => 55,
            9 => 20,
            10 => 3,
            11 => 10,
            12 => 43,
            13 => 25,
            14 => 39,
            15 => 41,
            16 => 45,
            17 => 15,
            18 => 21,
            19 => 8,
            20 => 18,
            21 => 2,
            22 => 61,
            23 => 56,
            24 => 14,
            _ => 14,
    }
}

/// The round constant of round `r`.
pub fn round_constant_of(r: u64) -> (c: u64)
    requires
        r < 24,
    ensures
        c == round_constant(r),
{
    match r {
            0 => 0x0000000000000001,
            1 => 0x0000000000008082,
            2 => 0x800000000000808a,
            3 => 0x8000000080008000,
            4 => 0x000000000000808b,
            5 => 0x0000000080000001,
            6 => 0x8000000080008081,
            7 => 0x8000000000008009,
            8 => 0x000000000000008a,
            9 => 0x0000000000000088,
            10 => 0x0000000080008009,
            11 => 0x000000008000000a,
            12 => 0x000000008000808b,
            13 => 0x800000000000008b,
            14 => 0x8000000000008089,
            15 => 0x8000000000008003,
            16 => 0x8000000000008002,
            17 => 0x8000000000000080,
            18 => 0x000000000000800a,
            19 => 0x800000008000000a,
            20 => 0x8000000080008081,
            21 => 0x8000000000008080,
            22 => 0x0000000080000001,
            23 => 0x8000000080008008,
            _ => 0x8000000080008008,
    }
}

fn theta_step(a: &[u64; 25]) -> (out: [u64; 25])
    ensures
        out@ == theta(a@),
{
    let mut c = [0u64; 5];
    for x in 0..5
        invariant
            forall|j: int| 0 <= j < x ==> c[j] == column_parity(a@, j),
    {
        c[x] = a[x] ^ a[x + 5] ^ a[x + 10] ^ a[x + 15] ^ a[x + 20];
    }
    let mut d = [0u64; 5];
    for x in 0..5
        invariant
            forall|j: int| 0 <= j < 5 ==> c[j] == column_parity(a@, j),
            forall|j: int| 0 <= j < x ==> d[j] == theta_effect(a@, j),
    {
        d[x] = c[(x + 4) % 5] ^ rotl64(c[(x + 1) % 5], 1);
    }
    let mut out = [0u64; 25];
    for k in 0..25
        invariant
            forall|j: int| 0 <= j < 5 ==> d[j] == theta_effect(a@, j),
            forall|j: int| 0 <= j < k ==> out[j] == theta(a@)[j],
    {
        out[k] = a[k] ^ d[k % 5];
    }
    assert(out@ =~= theta(a@));
    out
}

fn rho_pi_step(a: &[u64; 25]) -> (out: [u64; 25])
    ensures
        out@ == rho_pi(a@),
{
    let mut out = [0u64; 25];
    for k in 0..25
        invariant
            forall|j: int| 0 <= j < k ==> out[j] == rho_pi(a@)[j],
    {
        let src: usize = (3 * (k / 5 + 2 * (k % 5))) % 5 + 5 * (k % 5);
        out[k] = rotl64(a[src], rho_offset_of(src as u64));
    }
    assert(out@ =~= rho_pi(a@));
    out
}

fn chi_step(a: &[u64; 25]) -> (out: [u64; 25])
    ensures
        out@ == chi(a@),
{
    let mut out = [0u64; 25];
    for k in 0..25
        invariant
            forall|j: int| 0 <= j < k ==> out[j] == chi(a@)[j],
    {
        let row: usize = 5 * (k / 5);
        out[k] = a[k] ^ (!a[(k % 5 + 1) % 5 + row] & a[(k % 5 + 2) % 5 + row]);
    }
    assert(out@ =~= chi(a@));
    out
}

/// One round of Keccak-f[1600].
pub fn keccak_round_step(a: &[u64; 25], r: u64) -> (out: [u64; 25])
    requires
        r < 24,
    ensures
        out@ == keccak_round(a@, r),
{
    let t = theta_step(a);
    let p = rho_pi_step(&t);
    let mut out = chi_step(&p);
    out[0] = out[0] ^ round_constant_of(r);
    assert(out@ =~= keccak_round(a@, r));
    out
}

/// The Keccak-f[1600] permutation, in place, as the kernel's `keccakf`.
pub fn keccakf(st: &mut [u64; 25])
    ensures
        final(st)@ == keccak_f(old(st)@),
        final(st)@ == keccak_rounds(old(st)@, 24),
{
    let ghost init = st@;
    for r in 0..24
        invariant
            st@ == keccak_rounds(init, r as nat),
    {
        *st = keccak_round_step(st, r);
    }
}

/// Keccak-256 of a message shorter than one block (136 bytes).
#[verifier::rlimit(40)]
pub fn keccak256(msg: &[u8]) -> (digest: [u8; 32])
    requires
        msg@.len() < 136,
    ensures
        digest@ == keccak256_of(msg@),
        digest@ == squeeze(keccak_rounds(absorb_block(pad_block(msg@)), 24)),
{
    let n = msg.len();
    let mut block = [0u8; 136];
    for i in 0..136
        invariant
            n == msg@.len(),
            n < 136,
            forall|j: int| 0 <= j < i ==> block[j] == padded_byte(msg@, j),
    {
        block[i] = if i < n {
            msg[i]
        } else if i == n && i == 135 {
            0x81
        } else if i == n {
            0x01
        } else if i == 135 {
            0x80
        } else {
            0
        };
    }
    assert(block@ =~= pad_block(msg@));
    let mut st = [0u64; 25];
    for i in 0..17
        invariant
            block@ == pad_block(msg@),
            forall|j: int| 0 <= j < i ==> st[j] == absorb_block(block@)[j],
            forall|j: int| i <= j < 25 ==> st[j] == 0,
    {
        let o = 8 * i;
        st[i] = (block[o] as u64) | ((block[o + 1] as u64) << 8u64) | ((block[o + 2] as u64)
            << 16u64) | ((block[o + 3] as u64) << 24u64) | ((block[o + 4] as u64) << 32u64) | ((
        block[o + 5] as u64) << 40u64) | ((block[o + 6] as u64) << 48u64) | ((block[o + 7] as u64)
            << 56u64);
    }
    assert(st@ =~= absorb_block(pad_block(msg@)));
    keccakf(&mut st);
    let mut digest = [0u8; 32];
    for j in 0..32
        invariant
            st@ == keccak_f(absorb_block(pad_block(msg@))),
            forall|k: int| 0 <= k < j ==> digest[k] == squeeze(st@)[k],
    {
        let k: u64 = (j % 8) as u64;
        digest[j] = ((st[j / 8] >> (8 * k)) & 0xffu64) as u8;
    }
    assert(digest@ =~= keccak256_of(msg@));
    digest
}

} // verus!
