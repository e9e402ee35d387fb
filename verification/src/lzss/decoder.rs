//! Decompression.

use vstd::prelude::*;
use compression::prelude::{DecodeExt, LzssCode, LzssDecoder};
use crate::lzss::code::{all_valid, blank, blank_window, expand, Code, WINDOW};
use crate::lzss::token::{across, lemma_parse_valid, parse, parse_from, step_ahead};

verus! {

/// `compression::prelude::LzssDecoder`, made by `with_dict` with a window of
/// `window` bytes that is full of `dict`, and run over `codes` to the end.
///
/// The decoder keeps the last `window` bytes in a ring. For a literal it
/// stores the byte; for a back-reference it reads, `len` times, the byte
/// `pos + 1` places behind the one it is about to store, and stores that.
/// It hands out every byte it stored, in order, and never reports an error.
/// Reading at `pos` beyond the ring, or handing out more than a ring of
/// bytes for one code, is what the `requires` keeps away.
#[verifier::external_body]
fn decoder_output(window: usize, dict: &[u8], codes: &Vec<Code>) -> (out: Vec<u8>)
    requires
        window >= 1,
        dict@.len() == window,
        forall|i: int|
            0 <= i < codes@.len() ==> (#[trigger] codes@[i] matches Code::Reference { len, pos }
                ==> len <= window && pos < window),
    ensures
        out@ == expand(dict@, codes@),
{
    let mut decoder = LzssDecoder::with_dict(window, dict);
    let feed = codes.iter().map(|code| match *code {
        Code::Symbol(byte) => LzssCode::Symbol(byte),
        Code::Reference { len, pos } => LzssCode::Reference { len, pos },
    });
    feed.decode(&mut decoder).map(Result::unwrap).collect()
}

/// What a token stream decompresses to: what its codes expand to in a
/// window that starts out full of spaces.
pub open spec fn unpacked(stream: Seq<u8>) -> Seq<u8> {
    expand(blank_window(), parse(stream))
}

/// Reads the codes of a token stream.
///
/// No stream is refused. One that breaks off inside a block ends there, and
/// a back-reference of which only the first byte is left is dropped.
pub fn parse_tokens(stream: &[u8]) -> (codes: Vec<Code>)
    ensures
        codes@ == parse(stream@),
        all_valid(codes@),
{
    let n = stream.len();
    let mut codes: Vec<Code> = Vec::new();
    let mut control: u8 = 0;
    let mut k: u8 = 8;
    let mut ahead: usize = 0;
    let ghost mut total: int = 0;
    let mut i: usize = 0;
    assert(stream@.skip(0) =~= stream@);
    assert(codes@ + parse(stream@) =~= parse(stream@));
    while i < n
        invariant
            i <= n,
            n == stream@.len(),
            k <= 8,
            ahead == total % (WINDOW as int),
            parse(stream@) == codes@ + parse_from(stream@.skip(i as int), control, k as nat, total),
        decreases n - i, 8 - k,
    {
        let ghost rest = stream@.skip(i as int);
        if k == 8 {
            control = stream[i];
            k = 0;
            assert(rest.skip(1) =~= stream@.skip(i + 1));
            i = i + 1;
        } else if (control >> k) & 1 == 1 {
            codes.push(Code::Symbol(stream[i]));
            assert(rest.skip(1) =~= stream@.skip(i + 1));
            i = i + 1;
            k = k + 1;
            ahead = step_ahead(ahead, 1, Ghost(total));
            proof {
                total = total + 1;
            }
        } else if n - i < 2 {
            i = n;
        } else {
            let b0 = stream[i];
            let b1 = stream[i + 1];
            let high = b1 & 0x30;
            let low = b1 & 0x0F;
            assert(low <= 15) by (bit_vector)
                requires
                    low == b1 & 0x0F,
            ;
            let offset: usize = (b0 as usize) | ((high as usize) << 4);
            assert(offset < 1024) by (bit_vector)
                requires
                    high == b1 & 0x30,
                    offset == (b0 as usize) | ((high as usize) << 4),
            ;
            let len: usize = (low + 3) as usize;
            let pos = across(ahead, offset, Ghost(total));
            codes.push(Code::Reference { len, pos });
            assert(rest.skip(2) =~= stream@.skip(i + 2));
            i = i + 2;
            k = k + 1;
            ahead = step_ahead(ahead, len, Ghost(total));
            proof {
                total = total + len;
            }
        }
    }
    proof {
        lemma_parse_valid(stream@, 0, 8, 0);
        assert(codes@ =~= parse(stream@));
    }
    codes
}

/// Decompresses a token stream.
///
/// The codes are read from the stream here and expanded by the decoder of
/// the `compression` crate, whose window starts out full of spaces.
pub fn decompress(stream: &[u8]) -> (out: Vec<u8>)
    ensures
        out@ == unpacked(stream@),
{
    let codes = parse_tokens(stream);
    let dict = blank();
    decoder_output(WINDOW, dict.as_slice(), &codes)
}

} // verus!
