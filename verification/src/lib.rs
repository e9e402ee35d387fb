//! Codec for the encrypted, compressed archive members of two strategy games.
//!
//! An encoded file is a header of twenty bytes and a body. The body is the
//! payload, compressed with LZSS and then hidden under a stream cipher whose
//! key comes from the file's name and its game. [`decode`] takes such a file
//! apart and checks it; [`encode`] builds one.

pub mod cipher;
pub mod container;
pub mod crc;
pub mod game;
pub mod key;
pub mod lzss;
pub mod prng;

pub use crate::container::{decode, encode, DecodeError, DecompressedFile};
pub use crate::game::Game;
