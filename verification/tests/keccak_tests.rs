use hash256_miner::keccak::{keccak256, keccakf, rotl64, round_constant_of};
use tiny_keccak::{Hasher, Keccak};

fn reference_keccak(data: &[u8]) -> [u8; 32] {
    let mut k = Keccak::v256();
    k.update(data);
    let mut out = [0u8; 32];
    k.finalize(&mut out);
    out
}

#[test]
fn keccak256_of_empty_message() {
    let d = keccak256(&[]);
    assert_eq!(
        hex::encode(d),
        "c5d2460186f7233c927e7db2dcc703c0e500b653ca82273b7bfad8045d85a470"
    );
}

#[test]
fn keccak256_of_abc() {
    let d = keccak256(b"abc");
    assert_eq!(
        hex::encode(d),
        "4e03657aea45a94fc7d47ba826c8d667c0d1e6e33a64a036ec44f58fa12d6c45"
    );
}

#[test]
fn keccak256_matches_reference_for_every_one_block_length() {
    for len in 0..136usize {
        let msg: Vec<u8> = (0..len).map(|i| (i * 37 + 11) as u8).collect();
        assert_eq!(keccak256(&msg), reference_keccak(&msg), "length {}", len);
    }
}

#[test]
fn keccak256_last_byte_of_block_padding() {
    // A 135-byte message puts both padding bits in the same byte.
    let msg = [0xa5u8; 135];
    assert_eq!(keccak256(&msg), reference_keccak(&msg));
}

#[test]
fn keccakf_of_zero_state() {
    // First lane of Keccak-f[1600] applied to the all-zero state.
    let mut st = [0u64; 25];
    keccakf(&mut st);
    assert_eq!(st[0], 0xF1258F7940E1DDE7);
    assert_eq!(st[1], 0x84D5CCF933C0478A);
}

#[test]
fn rotl64_rotates() {
    assert_eq!(rotl64(1, 0), 1);
    assert_eq!(rotl64(0x8000_0000_0000_0001, 1), 3);
    assert_eq!(rotl64(0x0123_4567_89ab_cdef, 8), 0x2345_6789_abcd_ef01);
    assert_eq!(rotl64(0x0123_4567_89ab_cdef, 63), 0x0123_4567_89ab_cdef_u64.rotate_left(63));
}

#[test]
fn round_constants_first_and_last() {
    assert_eq!(round_constant_of(0), 1);
    assert_eq!(round_constant_of(23), 0x8000000080008008);
}
