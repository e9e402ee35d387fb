use decryptor_s2::cipher::encrypt_decrypt;
use decryptor_s2::crc::checksum;
use decryptor_s2::key::make_key;
use decryptor_s2::Game;

fn noise(len: usize, mut value: u32) -> Vec<u8> {
    let mut out = Vec::with_capacity(len);
    for _ in 0..len {
        value = value.wrapping_mul(1664525).wrapping_add(1013904223);
        out.push((value >> 24) as u8);
    }
    out
}

#[test]
fn cipher_of_sixteen_zero_bytes() {
    let key = make_key("a.bin", &Game::Dng);
    let expected: [u8; 16] = [
        0x98, 0x56, 0x1B, 0x8E, 0xEE, 0x80, 0xDA, 0x11, 0xAD, 0x6B, 0x7C, 0x82, 0xE1, 0x37, 0x47,
        0xCB,
    ];
    assert_eq!(encrypt_decrypt(key, &[0u8; 16]), expected);
}

#[test]
fn cipher_of_one_byte() {
    let key = make_key("a.bin", &Game::Dng);
    assert_eq!(encrypt_decrypt(key, &[0u8]), [0x98]);
}

#[test]
fn cipher_of_nothing_is_nothing() {
    let key = make_key("a.bin", &Game::Dng);
    assert!(encrypt_decrypt(key, &[]).is_empty());
}

#[test]
fn second_mask_lands_on_the_stride() {
    // For this key the first mask has 189 bytes, the stride is 14147, and in
    // 20480 bytes the first byte on it is byte 304.
    let key = make_key("a.bin", &Game::Dng);
    let out = encrypt_decrypt(key, &vec![0u8; 20480]);
    assert_eq!(out.len(), 20480);
    assert_eq!(out[303..306], [0x5D, 0x15, 0x0F]);
    assert_eq!(out[14450..14453], [0x5B, 0x5B, 0xC7]);
    assert_eq!(checksum(&out), 0x6F3F_3C22);
    // Off the stride a byte repeats with the period of the first mask.
    assert_eq!(out[303], out[303 + 189]);
    assert_eq!(out[305], out[305 + 189]);
    assert_ne!(out[304], out[304 + 189]);
}

#[test]
fn cipher_twice_is_the_identity() {
    let mut seed = 1;
    for len in [0usize, 1, 2, 15, 16, 17, 127, 128, 255, 256, 1000, 8192, 16384, 40000] {
        for game in [Game::Dng, Game::Adk] {
            for name in ["a.bin", "test.sav", "map01.rtx"] {
                seed += 1;
                let data = noise(len, seed);
                let key = make_key(name, &game);
                let once = encrypt_decrypt(key, &data);
                assert_eq!(once.len(), len);
                assert_eq!(encrypt_decrypt(key, &once), data);
            }
        }
    }
}

#[test]
fn cipher_twice_is_the_identity_for_arbitrary_keys() {
    let mut value: u32 = 99;
    for round in 0..50 {
        let mut key = [0u8; 16];
        for byte in key.iter_mut() {
            value = value.wrapping_mul(1664525).wrapping_add(1013904223);
            *byte = (value >> 24) as u8;
        }
        let data = noise(1 + round * 977, value);
        let once = encrypt_decrypt(key, &data);
        assert_ne!(once, data);
        assert_eq!(encrypt_decrypt(key, &once), data);
    }
}

#[test]
fn cipher_depends_on_the_key() {
    let data = vec![0u8; 64];
    let first = encrypt_decrypt(make_key("a.bin", &Game::Dng), &data);
    let second = encrypt_decrypt(make_key("b.bin", &Game::Dng), &data);
    assert_ne!(first, second);
}
