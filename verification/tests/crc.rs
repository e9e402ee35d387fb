use decryptor_s2::crc::checksum;

#[test]
fn crc32_of_nothing_is_zero() {
    assert_eq!(checksum(b""), 0);
}

#[test]
fn crc32_of_the_check_string() {
    assert_eq!(checksum(b"123456789"), 0xCBF4_3926);
}

#[test]
fn crc32_of_other_inputs() {
    assert_eq!(checksum(b"a"), 0xE8B7_BE43);
    assert_eq!(checksum(b"abc"), 0x3524_41C2);
    assert_eq!(checksum(&[0u8]), 0xD202_EF8D);
    assert_eq!(checksum(b"The quick brown fox jumps over the lazy dog"), 0x414F_A339);
}

#[test]
fn crc32_agrees_with_the_bitwise_definition() {
    let mut data: Vec<u8> = Vec::new();
    let mut value: u32 = 12345;
    for round in 0..300 {
        let mut register: u32 = 0xFFFF_FFFF;
        for byte in &data {
            register ^= *byte as u32;
            for _ in 0..8 {
                register = if register & 1 == 1 {
                    (register >> 1) ^ 0xEDB8_8320
                } else {
                    register >> 1
                };
            }
        }
        assert_eq!(checksum(&data), !register, "length {}", round);
        value = value.wrapping_mul(1664525).wrapping_add(1013904223);
        data.push((value >> 24) as u8);
    }
}
