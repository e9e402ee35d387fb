//! The key schedule: sixteen bytes derived from a file's name and its game.

use vstd::prelude::*;
use vstd::string::*;
use crate::crc::{checksum, crc32};
use crate::game::Game;
use crate::prng::{low_byte, normalised, rng, state_after};

verus! {

/// The length of a key in bytes.
pub const KEY_LEN: usize = 16;

/// The byte written where WINDOWS-1252 has none for a character: `?`.
pub const REPLACEMENT: u8 = 0x3F;

/// The key that each game starts from.
pub open spec fn base_key(game: Game) -> Seq<u8> {
    match game {
        Game::Dng => seq![
            0xC9u8, 0x59, 0x46, 0xCA, 0xD9, 0xF0, 0x4F, 0x0A,
            0xA1, 0x00, 0xAA, 0xB8, 0xCB, 0xE8, 0xDB, 0x6B,
        ],
        Game::Adk => seq![
            0xBDu8, 0x8C, 0xC2, 0xBD, 0x30, 0x67, 0x4B, 0xF8,
            0xB4, 0x9B, 0x1B, 0xF9, 0xF6, 0x82, 0x2E, 0xF4,
        ],
    }
}

/// `c` with the letters `A` to `Z` folded to lower case, all else as it is.
pub open spec fn ascii_lower(c: char) -> char {
    if 'A' <= c && c <= 'Z' {
        ((c as u8) + 32) as char
    } else {
        c
    }
}

/// Whether `name` ends, in any case, in `.s2m` or `.sav`. As the four are
/// ASCII characters, these are also the name's last four bytes.
pub open spec fn keeps_base_key(name: Seq<char>) -> bool {
    let n = name.len() as int;
    &&& n >= 4
    &&& ascii_lower(name[n - 4]) == '.'
    &&& ascii_lower(name[n - 3]) == 's'
    &&& {
        ||| ascii_lower(name[n - 2]) == '2' && ascii_lower(name[n - 1]) == 'm'
        ||| ascii_lower(name[n - 2]) == 'a' && ascii_lower(name[n - 1]) == 'v'
    }
}

/// The characters that the bytes 0x80 to 0x9F stand for in WINDOWS-1252, in
/// the order of the bytes.
pub open spec fn high_block() -> Seq<u32> {
    seq![
        0x20ACu32, 0x0081, 0x201A, 0x0192, 0x201E, 0x2026, 0x2020, 0x2021,
        0x02C6, 0x2030, 0x0160, 0x2039, 0x0152, 0x008D, 0x017D, 0x008F,
        0x0090, 0x2018, 0x2019, 0x201C, 0x201D, 0x2022, 0x2013, 0x2014,
        0x02DC, 0x2122, 0x0161, 0x203A, 0x0153, 0x009D, 0x017E, 0x0178,
    ]
}

/// The byte that stands for `c` in WINDOWS-1252; `None` where the code page
/// has no byte for `c`. ASCII and the characters from U+00A0 to U+00FF are
/// their own bytes; what lies between them is looked up in `high_block`.
pub open spec fn windows_1252_byte(c: char) -> Option<u8> {
    let code = c as u32;
    if code < 0x80 || (0xA0 <= code && code <= 0xFF) {
        Some(code as u8)
    } else if high_block().contains(code) {
        Some((0x80 + high_block().index_of(code)) as u8)
    } else {
        None
    }
}

/// The byte that `c` is hashed as: its WINDOWS-1252 byte, or `?`.
pub open spec fn hashed_byte(c: char) -> u8 {
    match windows_1252_byte(c) {
        Some(byte) => byte,
        None => REPLACEMENT,
    }
}

/// The bytes that `name` is hashed as: one for each character of the name in
/// lower case.
pub open spec fn name_bytes(name: Seq<char>) -> Seq<u8> {
    Seq::new(name.len(), |i: int| hashed_byte(ascii_lower(name[i])))
}

/// `base` with each byte XORed with the low byte of one more sample of the
/// stream that starts from `seed`.
pub open spec fn scrambled(base: Seq<u8>, seed: u32) -> Seq<u8> {
    Seq::new(base.len(), |i: int| base[i] ^ low_byte(state_after(seed, (i + 1) as nat)))
}

/// The key of the file called `name` in `game`.
pub open spec fn key_of(name: Seq<char>, game: Game) -> Seq<u8> {
    if keeps_base_key(name) {
        base_key(game)
    } else {
        scrambled(base_key(game), normalised(crc32(name_bytes(name))))
    }
}

/// `encoding_rs::WINDOWS_1252.encode` on the one character `c`: the byte
/// that the encoder writes for it, or `None` where it reports the character
/// as unmappable.
///
/// The encoder passes ASCII through. For any other character it looks the
/// code point up in its table of the upper half of the code page, whose
/// first thirty-two entries `high_block` repeats and whose other ninety-six
/// are U+00A0 to U+00FF in order; the byte is 0x80 more than the index.
#[verifier::external_body]
fn encode_char(c: char) -> (byte: Option<u8>)
    ensures
        byte == windows_1252_byte(c),
{
    let mut buffer = [0u8; 4];
    let (bytes, _, unmappable) = encoding_rs::WINDOWS_1252.encode(c.encode_utf8(&mut buffer));
    if unmappable {
        None
    } else {
        Some(bytes[0])
    }
}

/// Folds one character to lower case.
fn lower(c: char) -> (low: char)
    ensures
        low == ascii_lower(c),
{
    if 'A' <= c && c <= 'Z' {
        ((c as u8) + 32) as char
    } else {
        c
    }
}

/// The key that `game` starts from.
pub fn base_key_of(game: &Game) -> (key: [u8; 16])
    ensures
        key@ == base_key(*game),
{
    let key: [u8; 16] = match game {
        Game::Dng => [
            0xC9, 0x59, 0x46, 0xCA, 0xD9, 0xF0, 0x4F, 0x0A,
            0xA1, 0x00, 0xAA, 0xB8, 0xCB, 0xE8, 0xDB, 0x6B,
        ],
        Game::Adk => [
            0xBD, 0x8C, 0xC2, 0xBD, 0x30, 0x67, 0x4B, 0xF8,
            0xB4, 0x9B, 0x1B, 0xF9, 0xF6, 0x82, 0x2E, 0xF4,
        ],
    };
    assert(key@ =~= base_key(*game));
    key
}

/// Whether the name ends, in any case, in `.s2m` or `.sav`.
fn has_plain_suffix(file: &str) -> (plain: bool)
    ensures
        plain == keeps_base_key(file@),
{
    let n = file.unicode_len();
    if n < 4 {
        return false;
    }
    let c0 = lower(file.get_char(n - 4));
    let c1 = lower(file.get_char(n - 3));
    let c2 = lower(file.get_char(n - 2));
    let c3 = lower(file.get_char(n - 1));
    c0 == '.' && c1 == 's' && ((c2 == '2' && c3 == 'm') || (c2 == 'a' && c3 == 'v'))
}

/// The bytes that the name is hashed as.
fn hashed_name(file: &str) -> (bytes: Vec<u8>)
    ensures
        bytes@ == name_bytes(file@),
{
    let mut bytes: Vec<u8> = Vec::new();
    for c in it: file.chars()
        invariant
            it.seq() == file@,
            bytes@ == name_bytes(file@).take(it.index() as int),
    {
        let byte = match encode_char(lower(c)) {
            Some(byte) => byte,
            None => REPLACEMENT,
        };
        bytes.push(byte);
        assert(bytes@ =~= name_bytes(file@).take(it.index() + 1));
    }
    assert(bytes@ =~= name_bytes(file@));
    bytes
}

/// Derives the key of the file called `file` in `game`.
///
/// A name that ends in `.s2m` or `.sav` keeps the game's base key. Any other
/// name is put in lower case and encoded in WINDOWS-1252, with `?` for what
/// the code page lacks; the CRC-32 of that seeds the generator, and each byte
/// of the base key is XORed with the low byte of the next sample.
pub fn make_key(file: &str, game: &Game) -> (key: [u8; 16])
    ensures
        key@ == key_of(file@, *game),
{
    let base = base_key_of(game);
    if has_plain_suffix(file) {
        return base;
    }
    let bytes = hashed_name(file);
    let sum = checksum(bytes.as_slice());
    let mut generator = rng(sum);
    let ghost seed = generator@;
    let mut key = base;
    let mut i: usize = 0;
    while i < KEY_LEN
        invariant
            i <= KEY_LEN,
            generator@ == state_after(seed, i as nat),
            base@.len() == KEY_LEN,
            key@.len() == KEY_LEN,
            forall|j: int| 0 <= j < i ==> key@[j] == scrambled(base@, seed)[j],
            forall|j: int| i <= j < KEY_LEN ==> key@[j] == base@[j],
        decreases KEY_LEN - i,
    {
        let sample = generator.next();
        key[i] = base[i] ^ (#[verifier::truncate] (sample as u8));
        i = i + 1;
    }
    assert(key@ =~= scrambled(base@, seed));
    key
}

} // verus!
