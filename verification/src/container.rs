//! The file format: a header of twenty bytes, then the compressed payload
//! under the cipher.
//!
//! | offset | size | field                                   |
//! |--------|------|-----------------------------------------|
//! | 0      | 4    | the magic number                        |
//! | 4      | 4    | the tag of the game                     |
//! | 8      | 4    | the CRC-32 of the payload               |
//! | 12     | 4    | the CRC-32 of the key                   |
//! | 16     | 4    | the length of the payload in bytes      |
//! | 20     |      | the body                                |
//!
//! Every number is little-endian.

use vstd::prelude::*;
use vstd::slice::slice_subrange;
use crate::cipher::{cipher, encrypt_decrypt, lemma_cipher_involution};
use crate::crc::{checksum, crc32};
use crate::game::{game_of, tag_of, Game};
use crate::key::{key_of, make_key};
use crate::lzss::decoder::{decompress, unpacked};
use crate::lzss::encoder::compress;

verus! {

/// The number that every encoded file starts with.
pub const MAGIC: u32 = 0x0609_1812;

/// The length of the header in bytes.
pub const HEADER_LEN: usize = 20;

/// What the header says of a file, the magic number apart.
#[derive(Debug, Clone, Copy, PartialEq, Eq, Structural)]
pub struct Header {
    /// The game that the file belongs to.
    pub game: Game,
    /// The CRC-32 of the payload.
    pub payload_crc: u32,
    /// The CRC-32 of the key that the body is enciphered with.
    pub key_crc: u32,
    /// The length of the payload in bytes.
    pub payload_size: u32,
}

/// Why a file was not decoded.
#[derive(Debug, Clone, Copy, PartialEq, Eq, Structural)]
pub enum DecodeError {
    /// The file does not start with the magic number: it is a payload, to be
    /// encoded.
    NotEncoded,
    /// The file is shorter than a header, or names no game that is known.
    BadHeader,
    /// The key derived from the file's name is not the one that the header
    /// was written for.
    KeyMismatch,
    /// The body decompresses to another length than the header gives.
    SizeMismatch,
    /// The body decompresses to bytes of another CRC-32 than the header
    /// gives.
    PayloadMismatch,
}

/// A decoded file: its game and its payload.
#[derive(Debug, Clone)]
pub struct DecompressedFile {
    /// The game that the file belongs to.
    pub game: Game,
    /// The payload.
    pub data: Vec<u8>,
}

impl View for DecompressedFile {
    type V = (Game, Seq<u8>);

    open spec fn view(&self) -> (Game, Seq<u8>) {
        (self.game, self.data@)
    }
}

/// The 32-bit number in the four bytes of `bytes` from `at` on.
pub open spec fn le_u32(bytes: Seq<u8>, at: int) -> u32 {
    (bytes[at] as u32) | (bytes[at + 1] as u32) << 8 | (bytes[at + 2] as u32) << 16 | (bytes[at
        + 3] as u32) << 24
}

/// The four bytes of a 32-bit number.
pub open spec fn u32_bytes(x: u32) -> Seq<u8> {
    seq![x as u8, (x >> 8) as u8, (x >> 16) as u8, (x >> 24) as u8]
}

/// Whether `bytes` start with the magic number.
pub open spec fn has_magic(bytes: Seq<u8>) -> bool {
    bytes.len() >= 4 && le_u32(bytes, 0) == MAGIC
}

/// The header at the start of `bytes`, where they are long enough for one,
/// start with the magic number and hold a tag that names a game.
pub open spec fn header_of(bytes: Seq<u8>) -> Option<Header> {
    if bytes.len() < HEADER_LEN || le_u32(bytes, 0) != MAGIC {
        None
    } else {
        match game_of(le_u32(bytes, 4)) {
            None => None,
            Some(game) => Some(
                Header {
                    game,
                    payload_crc: le_u32(bytes, 8),
                    key_crc: le_u32(bytes, 12),
                    payload_size: le_u32(bytes, 16),
                },
            ),
        }
    }
}

/// The twenty bytes of a header.
pub open spec fn header_bytes(header: Header) -> Seq<u8> {
    u32_bytes(MAGIC) + u32_bytes(tag_of(header.game)) + u32_bytes(header.payload_crc) + u32_bytes(
        header.key_crc,
    ) + u32_bytes(header.payload_size)
}

/// The header that is written for `payload` in the file called `name` of
/// `game`.
pub open spec fn header_for(name: Seq<char>, game: Game, payload: Seq<u8>) -> Header {
    Header {
        game,
        payload_crc: crc32(payload),
        key_crc: crc32(key_of(name, game)),
        payload_size: payload.len() as u32,
    }
}

/// What the body `body` of the file called `name` of `game` holds: the body
/// with the cipher taken off, decompressed.
pub open spec fn payload_of(name: Seq<char>, game: Game, body: Seq<u8>) -> Seq<u8> {
    unpacked(cipher(key_of(name, game), body))
}

/// What decoding the file called `name` with the contents `bytes` comes to:
/// the game and the payload, or the first check that fails.
pub open spec fn decoded(name: Seq<char>, bytes: Seq<u8>) -> Result<(Game, Seq<u8>), DecodeError> {
    if !has_magic(bytes) {
        Err(DecodeError::NotEncoded)
    } else {
        match header_of(bytes) {
            None => Err(DecodeError::BadHeader),
            Some(header) => {
                let payload = payload_of(name, header.game, bytes.skip(HEADER_LEN as int));
                if crc32(key_of(name, header.game)) != header.key_crc {
                    Err(DecodeError::KeyMismatch)
                } else if payload.len() != header.payload_size {
                    Err(DecodeError::SizeMismatch)
                } else if crc32(payload) != header.payload_crc {
                    Err(DecodeError::PayloadMismatch)
                } else {
                    Ok((header.game, payload))
                }
            },
        }
    }
}

/// Whether `bytes` are an encoding of `payload` for the file called `name`
/// of `game`: the header written for it, then a body that holds it.
pub open spec fn is_encoding(
    bytes: Seq<u8>,
    name: Seq<char>,
    game: Game,
    payload: Seq<u8>,
) -> bool {
    &&& bytes.len() >= HEADER_LEN
    &&& bytes.take(HEADER_LEN as int) == header_bytes(header_for(name, game, payload))
    &&& payload_of(name, game, bytes.skip(HEADER_LEN as int)) == payload
}

/// Four bytes written for a number are read back as that number.
pub proof fn lemma_u32_round_trip(x: u32)
    ensures
        u32_bytes(x).len() == 4,
        le_u32(u32_bytes(x), 0) == x,
{
    let b0 = x as u8;
    let b1 = (x >> 8) as u8;
    let b2 = (x >> 16) as u8;
    let b3 = (x >> 24) as u8;
    assert((b0 as u32) | (b1 as u32) << 8 | (b2 as u32) << 16 | (b3 as u32) << 24 == x)
        by (bit_vector)
        requires
            b0 == x as u8,
            b1 == (x >> 8) as u8,
            b2 == (x >> 16) as u8,
            b3 == (x >> 24) as u8,
    ;
}

/// A header is read back as it was written.
pub proof fn lemma_header_round_trip(header: Header, rest: Seq<u8>)
    ensures
        header_bytes(header).len() == HEADER_LEN,
        has_magic(header_bytes(header) + rest),
        header_of(header_bytes(header) + rest) == Some(header),
{
    let bytes = header_bytes(header) + rest;
    lemma_u32_round_trip(MAGIC);
    lemma_u32_round_trip(tag_of(header.game));
    lemma_u32_round_trip(header.payload_crc);
    lemma_u32_round_trip(header.key_crc);
    lemma_u32_round_trip(header.payload_size);
    assert(le_u32(bytes, 0) == le_u32(u32_bytes(MAGIC), 0));
    assert(le_u32(bytes, 4) == le_u32(u32_bytes(tag_of(header.game)), 0));
    assert(le_u32(bytes, 8) == le_u32(u32_bytes(header.payload_crc), 0));
    assert(le_u32(bytes, 12) == le_u32(u32_bytes(header.key_crc), 0));
    assert(le_u32(bytes, 16) == le_u32(u32_bytes(header.payload_size), 0));
}

/// Decoding an encoding gives back the game and the payload that were
/// encoded, for every name, game and payload that a header can count.
pub proof fn lemma_round_trip(bytes: Seq<u8>, name: Seq<char>, game: Game, payload: Seq<u8>)
    requires
        payload.len() <= u32::MAX,
        is_encoding(bytes, name, game, payload),
    ensures
        decoded(name, bytes) == Ok::<(Game, Seq<u8>), DecodeError>((game, payload)),
{
    let header = header_for(name, game, payload);
    let rest = bytes.skip(HEADER_LEN as int);
    lemma_header_round_trip(header, rest);
    assert(bytes =~= header_bytes(header) + rest);
}

/// An archive is stable: where a file decodes, any encoding of what it holds,
/// under the same name and game, decodes to the same. The two files need not
/// be equal byte for byte.
pub proof fn lemma_archive_stability(
    name: Seq<char>,
    first: Seq<u8>,
    second: Seq<u8>,
    game: Game,
    payload: Seq<u8>,
)
    requires
        decoded(name, first) == Ok::<(Game, Seq<u8>), DecodeError>((game, payload)),
        is_encoding(second, name, game, payload),
    ensures
        decoded(name, second) == decoded(name, first),
{
    lemma_round_trip(second, name, game, payload);
}

/// Whatever does not start with the magic number is taken for a payload, and
/// nothing behind its first four bytes has a say in that.
pub proof fn lemma_direction(name: Seq<char>, bytes: Seq<u8>)
    requires
        !has_magic(bytes),
    ensures
        decoded(name, bytes) == Err::<(Game, Seq<u8>), DecodeError>(DecodeError::NotEncoded),
{
}

/// Reads the 32-bit number in the four bytes from `at` on.
fn read_u32(bytes: &[u8], at: usize) -> (x: u32)
    requires
        at + 4 <= bytes@.len(),
    ensures
        x == le_u32(bytes@, at as int),
{
    (bytes[at] as u32) | (bytes[at + 1] as u32) << 8 | (bytes[at + 2] as u32) << 16 | (bytes[at
        + 3] as u32) << 24
}

/// Writes the four bytes of a 32-bit number.
fn write_u32(out: &mut Vec<u8>, x: u32)
    ensures
        final(out)@ == old(out)@ + u32_bytes(x),
{
    out.push(#[verifier::truncate] (x as u8));
    out.push(#[verifier::truncate] ((x >> 8) as u8));
    out.push(#[verifier::truncate] ((x >> 16) as u8));
    out.push(#[verifier::truncate] ((x >> 24) as u8));
    assert(out@ =~= old(out)@ + u32_bytes(x));
}

/// Tells an encoded file from a payload by its first four bytes.
pub fn is_encoded(bytes: &[u8]) -> (encoded: bool)
    ensures
        encoded == has_magic(bytes@),
{
    bytes.len() >= 4 && read_u32(bytes, 0) == MAGIC
}

/// Reads the header of an encoded file.
pub fn read_header(bytes: &[u8]) -> (header: Option<Header>)
    ensures
        header == header_of(bytes@),
{
    if bytes.len() < HEADER_LEN || read_u32(bytes, 0) != MAGIC {
        return None;
    }
    match Game::from_tag(read_u32(bytes, 4)) {
        None => None,
        Some(game) => Some(
            Header {
                game,
                payload_crc: read_u32(bytes, 8),
                key_crc: read_u32(bytes, 12),
                payload_size: read_u32(bytes, 16),
            },
        ),
    }
}

/// Writes a header.
pub fn write_header(header: &Header) -> (bytes: Vec<u8>)
    ensures
        bytes@ == header_bytes(*header),
{
    let mut bytes: Vec<u8> = Vec::new();
    assert(bytes@ + u32_bytes(MAGIC) =~= u32_bytes(MAGIC));
    write_u32(&mut bytes, MAGIC);
    write_u32(&mut bytes, header.game.tag());
    write_u32(&mut bytes, header.payload_crc);
    write_u32(&mut bytes, header.key_crc);
    write_u32(&mut bytes, header.payload_size);
    bytes
}

/// Decodes the file called `file_name` with the contents `bytes`.
///
/// The checks are made in this order, and the first that fails is the error:
/// the magic number (`NotEncoded`), the length and the tag of the game
/// (`BadHeader`), the CRC-32 of the key derived from the name
/// (`KeyMismatch`), the length of the decompressed body (`SizeMismatch`),
/// its CRC-32 (`PayloadMismatch`).
pub fn decode(file_name: &str, bytes: &[u8]) -> (file: Result<DecompressedFile, DecodeError>)
    ensures
        match file {
            Ok(file) => decoded(file_name@, bytes@) == Ok::<(Game, Seq<u8>), DecodeError>(file@),
            Err(error) => decoded(file_name@, bytes@) == Err::<(Game, Seq<u8>), DecodeError>(
                error,
            ),
        },
        !has_magic(bytes@) ==> file == Err::<DecompressedFile, DecodeError>(
            DecodeError::NotEncoded,
        ),
{
    if !is_encoded(bytes) {
        return Err(DecodeError::NotEncoded);
    }
    let header = match read_header(bytes) {
        None => {
            return Err(DecodeError::BadHeader);
        },
        Some(header) => header,
    };
    let key = make_key(file_name, &header.game);
    if checksum(key.as_slice()) != header.key_crc {
        return Err(DecodeError::KeyMismatch);
    }
    let body = slice_subrange(bytes, HEADER_LEN, bytes.len());
    assert(body@ =~= bytes@.skip(HEADER_LEN as int));
    let packed = encrypt_decrypt(key, body);
    let data = decompress(packed.as_slice());
    if data.len() != header.payload_size as usize {
        return Err(DecodeError::SizeMismatch);
    }
    if checksum(data.as_slice()) != header.payload_crc {
        return Err(DecodeError::PayloadMismatch);
    }
    Ok(DecompressedFile { game: header.game, data })
}

/// Encodes `payload` as the file called `file_name` of `game`.
///
/// The header counts the payload in 32 bits, so a payload of more than
/// `u32::MAX` bytes cannot be encoded.
pub fn encode(file_name: &str, game: Game, payload: &[u8]) -> (bytes: Vec<u8>)
    requires
        payload@.len() <= u32::MAX,
    ensures
        is_encoding(bytes@, file_name@, game, payload@),
        decoded(file_name@, bytes@) == Ok::<(Game, Seq<u8>), DecodeError>((game, payload@)),
{
    let key = make_key(file_name, &game);
    let packed = compress(payload);
    let mut body = encrypt_decrypt(key, packed.as_slice());
    let header = Header {
        game,
        payload_crc: checksum(payload),
        key_crc: checksum(key.as_slice()),
        payload_size: payload.len() as u32,
    };
    let mut bytes = write_header(&header);
    let ghost head = bytes@;
    let ghost tail = body@;
    bytes.append(&mut body);
    proof {
        lemma_u32_round_trip(MAGIC);
        lemma_header_round_trip(header, tail);
        assert(bytes@.take(HEADER_LEN as int) =~= head);
        assert(bytes@.skip(HEADER_LEN as int) =~= tail);
        lemma_cipher_involution(key@, packed@);
        lemma_round_trip(bytes@, file_name@, game, payload@);
    }
    bytes
}

} // verus!
