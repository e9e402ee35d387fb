//! The codes that the token stream stands for, and what they expand to.

use vstd::prelude::*;

verus! {

/// The size of the window in bytes.
pub const WINDOW: usize = 1024;

/// The shortest back-reference.
pub const MIN_MATCH: usize = 3;

/// The longest back-reference.
pub const MAX_MATCH: usize = 18;

/// The byte that fills the window before any output: an ASCII space.
pub const FILL: u8 = 0x20;

/// One step of the compressed stream.
#[derive(Debug, Clone, Copy, PartialEq, Eq, Structural)]
pub enum Code {
    /// One byte, as it is.
    Symbol(u8),
    /// `len` bytes, each copied from `pos + 1` bytes behind the place where
    /// it lands: `pos` 0 repeats the last byte.
    Reference { len: usize, pos: usize },
}

impl Code {
    /// Whether the token format can hold the code.
    pub open spec fn valid(self) -> bool {
        match self {
            Code::Symbol(_) => true,
            Code::Reference { len, pos } => MIN_MATCH <= len <= MAX_MATCH && pos < WINDOW,
        }
    }

    /// The number of bytes that the code expands to.
    pub open spec fn span(self) -> int {
        match self {
            Code::Symbol(_) => 1,
            Code::Reference { len, pos } => len as int,
        }
    }
}

/// Whether the token format can hold every one of `codes`.
pub open spec fn all_valid(codes: Seq<Code>) -> bool {
    forall|i: int| 0 <= i < codes.len() ==> (#[trigger] codes[i]).valid()
}

/// The window before any output.
pub open spec fn blank_window() -> Seq<u8> {
    Seq::new(WINDOW as nat, |i: int| FILL)
}

/// The byte `pos + 1` places behind the end of `out`. Where the output is
/// shorter than that, the window still shows the dictionary `dict` that it
/// started with, whose last byte lies just before the output.
pub open spec fn window_byte(dict: Seq<u8>, out: Seq<u8>, pos: int) -> u8 {
    if pos < out.len() {
        out[out.len() - 1 - pos]
    } else {
        dict[dict.len() - 1 - (pos - out.len())]
    }
}

/// `out` after `n` bytes have been copied to its end, one at a time, each
/// from `pos + 1` places behind the end at that time.
pub open spec fn copy_run(dict: Seq<u8>, out: Seq<u8>, pos: int, n: nat) -> Seq<u8>
    decreases n,
{
    if n == 0 {
        out
    } else {
        copy_run(dict, out.push(window_byte(dict, out, pos)), pos, (n - 1) as nat)
    }
}

/// `out` after one code.
pub open spec fn apply(dict: Seq<u8>, out: Seq<u8>, code: Code) -> Seq<u8> {
    match code {
        Code::Symbol(byte) => out.push(byte),
        Code::Reference { len, pos } => copy_run(dict, out, pos as int, len as nat),
    }
}

/// `out` after all of `codes`, one after another.
pub open spec fn expand_onto(dict: Seq<u8>, out: Seq<u8>, codes: Seq<Code>) -> Seq<u8>
    decreases codes.len(),
{
    if codes.len() == 0 {
        out
    } else {
        expand_onto(dict, apply(dict, out, codes[0]), codes.skip(1))
    }
}

/// What `codes` expand to in a window that starts as `dict`.
pub open spec fn expand(dict: Seq<u8>, codes: Seq<Code>) -> Seq<u8> {
    expand_onto(dict, Seq::empty(), codes)
}

/// A run of `n` bytes makes the output `n` bytes longer and leaves what was
/// there as it was.
pub proof fn lemma_copy_run_extends(dict: Seq<u8>, out: Seq<u8>, pos: int, n: nat)
    ensures
        copy_run(dict, out, pos, n).len() == out.len() + n,
        copy_run(dict, out, pos, n).take(out.len() as int) == out,
    decreases n,
{
    if n > 0 {
        let next = out.push(window_byte(dict, out, pos));
        lemma_copy_run_extends(dict, next, pos, (n - 1) as nat);
        assert(copy_run(dict, out, pos, n).take(out.len() as int) =~= next.take(out.len() as int));
        assert(next.take(out.len() as int) =~= out);
    } else {
        assert(out.take(out.len() as int) =~= out);
    }
}

/// Codes make the output as much longer as their spans say.
pub proof fn lemma_expand_len(dict: Seq<u8>, out: Seq<u8>, codes: Seq<Code>)
    ensures
        expand_onto(dict, out, codes).len() == out.len() + total_span(codes),
    decreases codes.len(),
{
    if codes.len() > 0 {
        match codes[0] {
            Code::Symbol(_) => {},
            Code::Reference { len, pos } => {
                lemma_copy_run_extends(dict, out, pos as int, len as nat);
            },
        }
        lemma_expand_len(dict, apply(dict, out, codes[0]), codes.skip(1));
    }
}

/// The number of bytes that `codes` expand to.
pub open spec fn total_span(codes: Seq<Code>) -> int
    decreases codes.len(),
{
    if codes.len() == 0 {
        0
    } else {
        codes[0].span() + total_span(codes.skip(1))
    }
}

/// The window before any output, as bytes.
pub(crate) fn blank() -> (dict: Vec<u8>)
    ensures
        dict@ == blank_window(),
{
    let mut dict: Vec<u8> = Vec::new();
    while dict.len() < WINDOW
        invariant
            dict@.len() <= WINDOW,
            forall|i: int| 0 <= i < dict@.len() ==> dict@[i] == FILL,
        decreases WINDOW - dict@.len(),
    {
        dict.push(FILL);
    }
    assert(dict@ =~= blank_window());
    dict
}

} // verus!
