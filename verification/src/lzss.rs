//! The LZSS codec: a 1024-byte window that starts out full of spaces,
//! literals of one byte and back-references of three to eighteen bytes.
//!
//! The match finder and the window itself are those of the `compression`
//! crate. This module holds the token format, the translation between
//! window positions and the offsets that the format stores, and the check
//! that keeps a code out of the stream unless a decoder would read the
//! input back from it.

pub mod code;
pub mod decoder;
pub mod encoder;
pub mod order;
pub mod token;
