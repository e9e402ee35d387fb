use decryptor_s2::cipher::encrypt_decrypt;
use decryptor_s2::container::{is_encoded, read_header, write_header, Header, HEADER_LEN, MAGIC};
use decryptor_s2::crc::checksum;
use decryptor_s2::key::make_key;
use decryptor_s2::lzss::decoder::decompress;
use decryptor_s2::{decode, encode, DecodeError, Game};

fn noise(len: usize, mut value: u32) -> Vec<u8> {
    let mut out = Vec::with_capacity(len);
    for _ in 0..len {
        value = value.wrapping_mul(1664525).wrapping_add(1013904223);
        out.push((value >> 24) as u8);
    }
    out
}

fn field(bytes: &[u8], at: usize) -> u32 {
    u32::from_le_bytes([bytes[at], bytes[at + 1], bytes[at + 2], bytes[at + 3]])
}

#[test]
fn game_tags_are_the_ascii_tags() {
    assert_eq!(Game::Dng.tag(), u32::from_le_bytes(*b"rc00"));
    assert_eq!(Game::Adk.tag(), u32::from_le_bytes(*b"sadk"));
    assert_eq!(Game::from_tag(0x3030_6372), Some(Game::Dng));
    assert_eq!(Game::from_tag(0x6b64_6173), Some(Game::Adk));
    assert_eq!(Game::from_tag(0), None);
    assert_eq!(Game::from_tag(0x0609_1812), None);
    assert!(Game::Dng < Game::Adk);
}

#[test]
fn header_is_twenty_little_endian_bytes() {
    let header = Header {
        game: Game::Adk,
        payload_crc: 0x0102_0304,
        key_crc: 0xA1A2_A3A4,
        payload_size: 0x0000_1234,
    };
    let bytes = write_header(&header);
    assert_eq!(
        bytes,
        [
            0x12, 0x18, 0x09, 0x06, b's', b'a', b'd', b'k', 0x04, 0x03, 0x02, 0x01, 0xA4, 0xA3,
            0xA2, 0xA1, 0x34, 0x12, 0x00, 0x00,
        ]
    );
    assert_eq!(bytes.len(), HEADER_LEN);
    assert_eq!(read_header(&bytes), Some(header));
    assert!(is_encoded(&bytes));
}

#[test]
fn header_needs_twenty_bytes_and_a_known_game() {
    let header = Header { game: Game::Dng, payload_crc: 1, key_crc: 2, payload_size: 3 };
    let mut bytes = write_header(&header);
    assert_eq!(read_header(&bytes[..19]), None);
    bytes[4] ^= 1;
    assert_eq!(read_header(&bytes), None);
    bytes[4] ^= 1;
    assert_eq!(read_header(&bytes), Some(header));
    bytes[3] ^= 1;
    assert_eq!(read_header(&bytes), None);
}

#[test]
fn direction_is_told_by_the_first_four_bytes() {
    assert!(!is_encoded(&[]));
    assert!(!is_encoded(&[0x12, 0x18, 0x09]));
    assert!(is_encoded(&[0x12, 0x18, 0x09, 0x06]));
    assert!(is_encoded(&[0x12, 0x18, 0x09, 0x06, 0xFF]));
    assert!(!is_encoded(&[0x06, 0x09, 0x18, 0x12]));
    assert_eq!(MAGIC, 0x0609_1812);
}

#[test]
fn payloads_are_not_encoded() {
    let payloads: [&[u8]; 5] = [
        b"",
        b"abc",
        b"plain text, long enough for a header",
        &[0x12, 0x18, 0x09],
        &[0x13, 0x18, 0x09, 0x06, 0, 0, 0, 0],
    ];
    for bytes in payloads {
        assert_eq!(decode("a.bin", bytes).unwrap_err(), DecodeError::NotEncoded);
    }
}

#[test]
fn not_encoded_whatever_follows_the_first_four_bytes() {
    let mut bytes = encode("a.bin", Game::Dng, b"payload");
    bytes[0] ^= 0x80;
    assert_eq!(decode("a.bin", &bytes).unwrap_err(), DecodeError::NotEncoded);
    assert_eq!(decode("a.bin", &bytes[..4]).unwrap_err(), DecodeError::NotEncoded);
}

#[test]
fn short_or_unknown_headers_are_bad() {
    let bytes = encode("a.bin", Game::Dng, b"payload");
    for len in 4..20 {
        assert_eq!(decode("a.bin", &bytes[..len]).unwrap_err(), DecodeError::BadHeader);
    }
    let mut other = bytes.clone();
    other[4..8].copy_from_slice(b"xxxx");
    assert_eq!(decode("a.bin", &other).unwrap_err(), DecodeError::BadHeader);
}

#[test]
fn another_name_is_a_key_mismatch() {
    let bytes = encode("a.bin", Game::Dng, b"payload");
    assert_eq!(decode("b.bin", &bytes).unwrap_err(), DecodeError::KeyMismatch);
    let mut other = bytes.clone();
    other[12] ^= 1;
    assert_eq!(decode("a.bin", &other).unwrap_err(), DecodeError::KeyMismatch);
    // The other game has another base key.
    let mut other = bytes.clone();
    other[4..8].copy_from_slice(b"sadk");
    assert_eq!(decode("a.bin", &other).unwrap_err(), DecodeError::KeyMismatch);
}

#[test]
fn key_is_checked_before_the_body() {
    let mut bytes = encode("a.bin", Game::Dng, b"payload");
    bytes.truncate(20);
    assert_eq!(decode("b.bin", &bytes).unwrap_err(), DecodeError::KeyMismatch);
}

#[test]
fn another_length_is_a_size_mismatch() {
    let bytes = encode("a.bin", Game::Dng, b"payload");
    let mut other = bytes.clone();
    other[16] ^= 1;
    assert_eq!(decode("a.bin", &other).unwrap_err(), DecodeError::SizeMismatch);
    let mut other = bytes.clone();
    other.pop();
    assert_eq!(decode("a.bin", &other).unwrap_err(), DecodeError::SizeMismatch);
    other.truncate(20);
    assert_eq!(decode("a.bin", &other).unwrap_err(), DecodeError::SizeMismatch);
}

#[test]
fn another_crc_is_a_payload_mismatch() {
    let bytes = encode("a.bin", Game::Dng, b"payload");
    let mut other = bytes.clone();
    other[8] ^= 1;
    assert_eq!(decode("a.bin", &other).unwrap_err(), DecodeError::PayloadMismatch);
}

#[test]
fn flipped_byte_in_the_body_is_a_payload_mismatch() {
    // Eight bytes that repeat nothing: one control byte and eight literals.
    let bytes = encode("a.bin", Game::Dng, b"ABCDEFGH");
    assert_eq!(bytes.len(), 20 + 9);
    for at in 21..bytes.len() {
        for bit in 0..8 {
            let mut other = bytes.clone();
            other[at] ^= 1 << bit;
            assert_eq!(decode("a.bin", &other).unwrap_err(), DecodeError::PayloadMismatch);
        }
    }
}

#[test]
fn corrupted_bodies_never_decode() {
    let payload = noise(300, 9);
    let mut doubled = payload.clone();
    doubled.extend_from_slice(&payload);
    let bytes = encode("a.bin", Game::Dng, &doubled);
    for at in 20..bytes.len() {
        let mut other = bytes.clone();
        other[at] ^= 0x10;
        let error = decode("a.bin", &other).unwrap_err();
        assert!(
            error == DecodeError::PayloadMismatch || error == DecodeError::SizeMismatch,
            "{:?}",
            error
        );
    }
}

#[test]
fn sixteen_zero_bytes_round_trip() {
    let key = make_key("a.bin", &Game::Dng);
    assert_ne!(key, 0xC95946CAD9F04F0AA100AAB8CBE8DB6Bu128.to_be_bytes());
    let payload = [0u8; 16];
    let bytes = encode("a.bin", Game::Dng, &payload);
    assert_eq!(field(&bytes, 0), 0x0609_1812);
    assert_eq!(field(&bytes, 4), 0x3030_6372);
    assert_eq!(field(&bytes, 8), checksum(&payload));
    assert_eq!(field(&bytes, 8), 0xECBB_4B55);
    assert_eq!(field(&bytes, 12), checksum(&key));
    assert_eq!(field(&bytes, 16), 16);
    let file = decode("a.bin", &bytes).unwrap();
    assert_eq!(file.game, Game::Dng);
    assert_eq!(file.data, payload);
}

#[test]
fn header_holds_the_crc32_of_the_payload() {
    let bytes = encode("foo.s2m", Game::Adk, b"123456789");
    assert_eq!(field(&bytes, 8), 0xCBF4_3926);
    assert_eq!(field(&bytes, 16), 9);
    let bytes = encode("foo.s2m", Game::Adk, b"");
    assert_eq!(field(&bytes, 8), 0);
    assert_eq!(field(&bytes, 16), 0);
}

#[test]
fn body_is_the_compressed_payload_under_the_cipher() {
    let payload = b"a payload, a payload, a payload";
    let bytes = encode("map.rtx", Game::Adk, payload);
    let key = make_key("map.rtx", &Game::Adk);
    let stream = encrypt_decrypt(key, &bytes[20..]);
    assert_eq!(decompress(&stream), payload);
}

#[test]
fn empty_payload_round_trips() {
    let bytes = encode("a.bin", Game::Adk, b"");
    assert_eq!(bytes.len(), 20);
    let file = decode("a.bin", &bytes).unwrap();
    assert_eq!(file.game, Game::Adk);
    assert!(file.data.is_empty());
}

#[test]
fn run_of_one_byte_round_trips() {
    let payload = vec![b'A'; 1024];
    let bytes = encode("a.bin", Game::Dng, &payload);
    assert!(bytes.len() < 220);
    let file = decode("a.bin", &bytes).unwrap();
    assert_eq!(file.data, payload);
}

#[test]
fn text_and_noise_round_trip() {
    let mut payload = b"The quick brown fox jumps over the lazy dog".to_vec();
    payload.extend_from_slice(&noise(1000, 2024));
    for game in [Game::Dng, Game::Adk] {
        for name in ["a.bin", "test.sav", "foo.s2m", "MAP_01.RTX", "\u{e4}\u{f6}\u{fc}.lst", "x"] {
            let bytes = encode(name, game, &payload);
            let file = decode(name, &bytes).unwrap();
            assert_eq!(file.game, game);
            assert_eq!(file.data, payload);
        }
    }
}

#[test]
fn name_is_taken_in_any_case() {
    let bytes = encode("Data.Bin", Game::Dng, b"payload");
    assert_eq!(decode("DATA.BIN", &bytes).unwrap().data, b"payload");
    assert_eq!(bytes, encode("data.bin", Game::Dng, b"payload"));
}

#[test]
fn payloads_of_many_lengths_round_trip() {
    for len in 0..200 {
        let payload = noise(len, len as u32);
        let bytes = encode("a.bin", Game::Adk, &payload);
        let file = decode("a.bin", &bytes).unwrap();
        assert_eq!(file.game, Game::Adk);
        assert_eq!(file.data, payload);
    }
    let payload = noise(100_000, 4);
    assert_eq!(decode("big.dat", &encode("big.dat", Game::Dng, &payload)).unwrap().data, payload);
}

#[test]
fn decode_encode_decode_is_stable() {
    let mut payload = Vec::new();
    for round in 0..50u8 {
        payload.extend_from_slice(b"stable archive ");
        payload.push(round);
    }
    let first = encode("a.bin", Game::Dng, &payload);
    let decoded = decode("a.bin", &first).unwrap();
    let second = encode("a.bin", decoded.game, &decoded.data);
    let again = decode("a.bin", &second).unwrap();
    assert_eq!(again.game, decoded.game);
    assert_eq!(again.data, decoded.data);
}

#[test]
fn hand_made_archive_decodes_and_stays_stable() {
    // A body that no encoder here would write: nine literals where a match
    // was to be had.
    let payload = b"aaaaaaaaa";
    let stream = [0xFF, b'a', b'a', b'a', b'a', b'a', b'a', b'a', b'a', 0x01, b'a'];
    let key = make_key("hand.dat", &Game::Adk);
    let header = Header {
        game: Game::Adk,
        payload_crc: checksum(payload),
        key_crc: checksum(&key),
        payload_size: 9,
    };
    let mut first = write_header(&header);
    first.extend_from_slice(&encrypt_decrypt(key, &stream));
    let decoded = decode("hand.dat", &first).unwrap();
    assert_eq!(decoded.data, payload);
    let second = encode("hand.dat", decoded.game, &decoded.data);
    assert_ne!(second, first);
    let again = decode("hand.dat", &second).unwrap();
    assert_eq!(again.game, Game::Adk);
    assert_eq!(again.data, payload);
}

#[test]
fn is_valid() {
    let mut files: Vec<(&str, Vec<u8>)> = vec![
        ("island.s2m", encode("island.s2m", Game::Dng, &noise(3000, 1))),
        ("quick.sav", encode("quick.sav", Game::Adk, &vec![7u8; 5000])),
        ("texts.lst", encode("texts.lst", Game::Adk, b"one line\nand another line\n")),
        ("notes.txt", b"not an archive member".to_vec()),
    ];
    // A member that spends nine literals where a match was to be had.
    let key = make_key("hand.dat", &Game::Dng);
    let stream = [0xFF, b'a', b'a', b'a', b'a', b'a', b'a', b'a', b'a', 0x01, b'a'];
    let header = Header {
        game: Game::Dng,
        payload_crc: checksum(b"aaaaaaaaa"),
        key_crc: checksum(&key),
        payload_size: 9,
    };
    let mut member = write_header(&header);
    member.extend_from_slice(&encrypt_decrypt(key, &stream));
    files.push(("hand.dat", member));
    let saved = files
        .iter()
        .map(|(file_name, bytes)| match decode(file_name, bytes) {
            Ok(decomp) => {
                let written = encode(file_name, decomp.game, &decomp.data);
                let again = decode(file_name, &written);
                assert!(again.is_ok(), "Error occurred in 2. decryption of {file_name}");
                assert_eq!(again.unwrap().data, decomp.data);
                bytes.len() as isize - written.len() as isize
            }
            Err(DecodeError::NotEncoded) => 0,
            Err(error) => panic!("Error in 1. decryption of {}: {:?}", file_name, error),
        })
        .sum::<isize>();
    assert_eq!(saved, 11 - 4);
    println!("saved {saved} bytes!");
}
