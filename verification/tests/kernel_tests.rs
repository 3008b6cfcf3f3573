use hash256_miner::kernel::{
    bswap32, join_nonce, kernel_state, launch, mine, nonce_hash_words, split_nonce, ResultBuffer,
};
use hash256_miner::words::{below, challenge_words, difficulty_words};
use tiny_keccak::{Hasher, Keccak};

fn sample_challenge() -> [u8; 32] {
    let mut c = [0u8; 32];
    for (i, b) in c.iter_mut().enumerate() {
        *b = (i as u8).wrapping_mul(29).wrapping_add(7);
    }
    c
}

fn reference_hash(challenge: &[u8; 32], nonce: u64) -> [u8; 32] {
    let mut msg = Vec::new();
    msg.extend_from_slice(challenge);
    msg.extend_from_slice(&[0u8; 24]);
    msg.extend_from_slice(&nonce.to_be_bytes());
    let mut k = Keccak::v256();
    k.update(&msg);
    let mut out = [0u8; 32];
    k.finalize(&mut out);
    out
}

fn be_words(d: &[u8; 32]) -> [u32; 8] {
    let mut w = [0u32; 8];
    for i in 0..8 {
        w[i] = u32::from_be_bytes([d[4 * i], d[4 * i + 1], d[4 * i + 2], d[4 * i + 3]]);
    }
    w
}

#[test]
fn bswap32_reverses_bytes() {
    assert_eq!(bswap32(0x1122_3344), 0x4433_2211);
    assert_eq!(bswap32(0), 0);
    assert_eq!(bswap32(0xff00_0000), 0x0000_00ff);
}

#[test]
fn split_and_join_nonce() {
    assert_eq!(split_nonce(0x0123_4567_89ab_cdef), (0x89ab_cdef, 0x0123_4567));
    assert_eq!(join_nonce(0x89ab_cdef, 0x0123_4567), 0x0123_4567_89ab_cdef);
    for n in [0u64, 1, u32::MAX as u64, 1 << 32, u64::MAX, 1_700_000_000_000_000] {
        let (lo, hi) = split_nonce(n);
        assert_eq!(join_nonce(lo, hi), n);
    }
}

#[test]
fn kernel_state_holds_challenge_nonce_and_padding() {
    let c = sample_challenge();
    let st = kernel_state(&challenge_words(&c), 0x0102_0304_0506_0708);
    assert_eq!(st[0], u64::from_le_bytes(c[0..8].try_into().unwrap()));
    assert_eq!(st[3], u64::from_le_bytes(c[24..32].try_into().unwrap()));
    assert_eq!(st[4], 0);
    assert_eq!(st[7], u64::from_le_bytes(0x0102_0304_0506_0708u64.to_be_bytes()));
    assert_eq!(st[8], 1);
    assert_eq!(st[16], 0x8000_0000_0000_0000);
    assert_eq!(st[24], 0);
}

#[test]
fn nonce_hash_matches_reference_keccak() {
    let c = sample_challenge();
    let w = challenge_words(&c);
    for nonce in [0u64, 1, 42, 0xdead_beef, u64::MAX, 1_712_345_678_901_234] {
        assert_eq!(nonce_hash_words(&w, nonce), be_words(&reference_hash(&c, nonce)));
    }
}

#[test]
fn mine_records_a_solving_nonce() {
    let c = sample_challenge();
    let w = challenge_words(&c);
    let easy = difficulty_words(&[0xff; 32]);
    let mut out = ResultBuffer::default();
    mine(&w, &easy, 1000, 5, &mut out);
    assert_eq!(out.found, 1);
    assert_eq!(join_nonce(out.nonce_lo, out.nonce_hi), 1005);
    assert_eq!(out.hash, be_words(&reference_hash(&c, 1005)));
}

#[test]
fn mine_wraps_the_nonce() {
    let c = sample_challenge();
    let w = challenge_words(&c);
    let easy = difficulty_words(&[0xff; 32]);
    let mut out = ResultBuffer::default();
    mine(&w, &easy, u64::MAX, 3, &mut out);
    assert_eq!(out.found, 1);
    assert_eq!(join_nonce(out.nonce_lo, out.nonce_hi), 2);
}

#[test]
fn mine_keeps_the_first_report() {
    let c = sample_challenge();
    let w = challenge_words(&c);
    let easy = difficulty_words(&[0xff; 32]);
    let mut out = ResultBuffer::default();
    mine(&w, &easy, 0, 7, &mut out);
    let first = out;
    mine(&w, &easy, 0, 8, &mut out);
    assert_eq!(out, first);
}

#[test]
fn mine_rejects_at_zero_difficulty() {
    let c = sample_challenge();
    let w = challenge_words(&c);
    let none = difficulty_words(&[0; 32]);
    let mut out = ResultBuffer::default();
    mine(&w, &none, 0, 9, &mut out);
    assert_eq!(out, ResultBuffer::cleared());
}

#[test]
fn mine_compares_strictly() {
    let c = sample_challenge();
    let w = challenge_words(&c);
    let hash = reference_hash(&c, 77);
    // Difficulty equal to the hash: not below.
    let mut out = ResultBuffer::default();
    mine(&w, &difficulty_words(&hash), 77, 0, &mut out);
    assert_eq!(out.found, 0);
    // Difficulty one above the hash: below.
    let mut above = hash;
    let mut i = 31;
    loop {
        if above[i] == 0xff {
            above[i] = 0;
            i -= 1;
        } else {
            above[i] += 1;
            break;
        }
    }
    let mut out = ResultBuffer::default();
    mine(&w, &difficulty_words(&above), 77, 0, &mut out);
    assert_eq!(out.found, 1);
}

#[test]
fn launch_reports_the_first_solving_work_item() {
    let c = sample_challenge();
    let w = challenge_words(&c);
    // A difficulty that roughly one nonce in four meets.
    let mut d = [0u8; 32];
    d[0] = 0x40;
    let dw = difficulty_words(&d);
    let mut out = ResultBuffer::default();
    launch(&w, &dw, 500, 64, &mut out);
    let first = (0..64u64)
        .find(|g| below(&be_words(&reference_hash(&c, 500 + g)), &dw))
        .expect("some nonce of 64 meets a quarter difficulty");
    assert_eq!(out.found, 1);
    assert_eq!(join_nonce(out.nonce_lo, out.nonce_hi), 500 + first);
    assert_eq!(out.hash, be_words(&reference_hash(&c, 500 + first)));
}

#[test]
fn launch_without_solution_leaves_buffer_cleared() {
    let c = sample_challenge();
    let w = challenge_words(&c);
    let dw = difficulty_words(&[0; 32]);
    let mut out = ResultBuffer::default();
    launch(&w, &dw, 0, 16, &mut out);
    assert_eq!(out, ResultBuffer::cleared());
}

#[test]
fn work_items_in_any_order_report_a_solving_nonce() {
    let c = sample_challenge();
    let w = challenge_words(&c);
    let mut d = [0u8; 32];
    d[0] = 0x40;
    let dw = difficulty_words(&d);
    let solving: Vec<u64> = (0..32u64)
        .filter(|g| below(&be_words(&reference_hash(&c, 900 + g)), &dw))
        .collect();
    assert!(!solving.is_empty());
    // Run the work items last to first, as a device may.
    let mut out = ResultBuffer::default();
    for gid in (0..32u64).rev() {
        mine(&w, &dw, 900, gid, &mut out);
    }
    assert_eq!(out.found, 1);
    let n = join_nonce(out.nonce_lo, out.nonce_hi);
    assert!(solving.contains(&(n - 900)));
    assert_eq!(n, 900 + *solving.last().unwrap());
    assert_eq!(out.hash, be_words(&reference_hash(&c, n)));
}
