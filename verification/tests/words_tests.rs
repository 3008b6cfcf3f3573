use hash256_miner::words::{below, challenge_words, difficulty_words};

#[test]
fn challenge_words_are_little_endian() {
    let mut c = [0u8; 32];
    for (i, b) in c.iter_mut().enumerate() {
        *b = i as u8;
    }
    let w = challenge_words(&c);
    for i in 0..8 {
        assert_eq!(w[i], u32::from_le_bytes(c[4 * i..4 * i + 4].try_into().unwrap()));
    }
    assert_eq!(w[0], 0x0302_0100);
}

#[test]
fn difficulty_words_are_big_endian() {
    let mut d = [0u8; 32];
    d[0] = 0x12;
    d[3] = 0x34;
    d[31] = 0x56;
    let w = difficulty_words(&d);
    assert_eq!(w[0], 0x1200_0034);
    assert_eq!(w[7], 0x0000_0056);
    assert_eq!(w[1..7], [0u32; 6]);
}

#[test]
fn below_compares_as_numbers() {
    let a = [0, 0, 0, 0, 0, 0, 0, 5u32];
    let b = [0, 0, 0, 0, 0, 0, 1, 0u32];
    assert!(below(&a, &b));
    assert!(!below(&b, &a));
    assert!(!below(&a, &a));
    let hi = [1, 0, 0, 0, 0, 0, 0, 0u32];
    let lo = [0, u32::MAX, u32::MAX, u32::MAX, u32::MAX, u32::MAX, u32::MAX, u32::MAX];
    assert!(below(&lo, &hi));
    assert!(!below(&hi, &lo));
}

#[test]
fn challenge_words_give_back_the_challenge() {
    let mut c = [0u8; 32];
    for (i, b) in c.iter_mut().enumerate() {
        *b = (i as u8).wrapping_mul(97).wrapping_add(3);
    }
    let w = challenge_words(&c);
    let mut back = Vec::new();
    for x in w {
        back.extend_from_slice(&x.to_le_bytes());
    }
    assert_eq!(back, c.to_vec());
}

#[test]
fn difficulty_words_keep_the_number() {
    let mut d = [0u8; 32];
    for (i, b) in d.iter_mut().enumerate() {
        *b = (i as u8).wrapping_mul(13).wrapping_add(1);
    }
    let w = difficulty_words(&d);
    let mut back = Vec::new();
    for x in w {
        back.extend_from_slice(&x.to_be_bytes());
    }
    assert_eq!(back, d.to_vec());
}
