//! Compression.
//!
//! The codes come from the match finder of the `compression` crate. Nothing
//! is taken on trust about them: each is held against the input before it is
//! written, and from the first that does not fit, the input goes out as
//! literals. So what is written always reads back as the input.

use vstd::prelude::*;
use compression::prelude::{Action, EncodeExt, LzssCode, LzssEncoder};
use crate::lzss::code::{
    all_valid, apply, blank, blank_window, copy_run, expand, expand_onto, lemma_copy_run_extends,
    lemma_expand_len, window_byte, Code, FILL, MAX_MATCH, MIN_MATCH, WINDOW,
};
use crate::lzss::decoder::unpacked;
use crate::lzss::order::comparison;
use crate::lzss::token::{
    across, control_byte, flag, lemma_parse_packed, packed, parse, step_ahead, token_bytes, tokens,
};

verus! {

/// How many positions the match finder looks ahead for a better match
/// before it settles for the one it has.
pub const LAZY_LEVEL: usize = 2;

/// The byte `pos + 1` places before index `at` of `data`, or a space where
/// that lies before the start.
pub open spec fn source_byte(data: Seq<u8>, at: int, pos: int) -> u8 {
    if at - 1 - pos >= 0 {
        data[at - 1 - pos]
    } else {
        FILL
    }
}

/// Whether byte `at` of `data` is a copy of the byte `pos + 1` places before
/// it.
pub open spec fn copies(data: Seq<u8>, at: int, pos: int) -> bool {
    data[at] == source_byte(data, at, pos)
}

/// Whether `code` stands for the bytes of `data` from `cur` on: a literal
/// for the byte there, a back-reference that the format can hold for bytes
/// that are all there and are each a copy of the byte it points to.
pub open spec fn fits(data: Seq<u8>, cur: int, code: Code) -> bool {
    match code {
        Code::Symbol(byte) => cur < data.len() && data[cur] == byte,
        Code::Reference { len, pos } => {
            &&& code.valid()
            &&& cur + len <= data.len()
            &&& forall|k: int| 0 <= k < len ==> #[trigger] copies(data, cur + k, pos as int)
        },
    }
}

/// One literal for each byte of `data` from `cur` on.
pub open spec fn literals(data: Seq<u8>, cur: int) -> Seq<Code> {
    Seq::new((data.len() - cur) as nat, |j: int| Code::Symbol(data[cur + j]))
}

/// The codes that are written for `data` from `cur` on, given the codes
/// `codes` of a match finder: those up to the first that does not fit, and
/// literals for what they leave.
pub open spec fn checked_from(data: Seq<u8>, codes: Seq<Code>, cur: int) -> Seq<Code>
    decreases codes.len(),
{
    if codes.len() > 0 && fits(data, cur, codes[0]) {
        seq![codes[0]] + checked_from(data, codes.skip(1), cur + codes[0].span())
    } else {
        literals(data, cur)
    }
}

/// The codes that are written for `data`, given the codes of a match finder.
pub open spec fn checked(data: Seq<u8>, codes: Seq<Code>) -> Seq<Code> {
    checked_from(data, codes, 0)
}

/// A run of copies that fits the data adds just the bytes of the data.
pub proof fn lemma_copy_run_fits(data: Seq<u8>, cur: int, pos: int, n: nat)
    requires
        0 <= cur,
        cur + n <= data.len(),
        0 <= pos < WINDOW,
        forall|k: int| 0 <= k < n ==> #[trigger] copies(data, cur + k, pos),
    ensures
        copy_run(blank_window(), data.take(cur), pos, n) == data.take(cur + n),
    decreases n,
{
    if n > 0 {
        let out = data.take(cur);
        assert(copies(data, cur + 0, pos));
        assert(window_byte(blank_window(), out, pos) == data[cur]);
        assert(out.push(data[cur]) =~= data.take(cur + 1));
        assert forall|k: int| 0 <= k < n - 1 implies #[trigger] copies(data, cur + 1 + k, pos) by {
            assert(copies(data, cur + (k + 1), pos));
        }
        lemma_copy_run_fits(data, cur + 1, pos, (n - 1) as nat);
    }
}

/// A code that fits adds just the bytes of the data that it stands for.
pub proof fn lemma_fits_apply(data: Seq<u8>, cur: int, code: Code)
    requires
        0 <= cur,
        fits(data, cur, code),
    ensures
        code.valid(),
        cur + code.span() <= data.len(),
        apply(blank_window(), data.take(cur), code) == data.take(cur + code.span()),
{
    match code {
        Code::Symbol(byte) => {
            assert(data.take(cur).push(byte) =~= data.take(cur + 1));
        },
        Code::Reference { len, pos } => {
            lemma_copy_run_fits(data, cur, pos as int, len as nat);
        },
    }
}

/// Literals add the rest of the data.
pub proof fn lemma_literals_expand(data: Seq<u8>, cur: int)
    requires
        0 <= cur <= data.len(),
    ensures
        all_valid(literals(data, cur)),
        expand_onto(blank_window(), data.take(cur), literals(data, cur)) == data,
    decreases data.len() - cur,
{
    if cur < data.len() {
        assert(literals(data, cur).skip(1) =~= literals(data, cur + 1));
        assert(data.take(cur).push(data[cur]) =~= data.take(cur + 1));
        lemma_literals_expand(data, cur + 1);
    } else {
        assert(data.take(cur) =~= data);
    }
}

/// The codes that are written can all be held by the format, and expand to
/// the data.
pub proof fn lemma_checked_from(data: Seq<u8>, codes: Seq<Code>, cur: int)
    requires
        0 <= cur <= data.len(),
    ensures
        all_valid(checked_from(data, codes, cur)),
        expand_onto(blank_window(), data.take(cur), checked_from(data, codes, cur)) == data,
    decreases codes.len(),
{
    if codes.len() > 0 && fits(data, cur, codes[0]) {
        let code = codes[0];
        let rest = checked_from(data, codes.skip(1), cur + code.span());
        lemma_fits_apply(data, cur, code);
        lemma_checked_from(data, codes.skip(1), cur + code.span());
        assert((seq![code] + rest).skip(1) =~= rest);
    } else {
        lemma_literals_expand(data, cur);
    }
}

/// Whatever the match finder came up with, the codes that are written can
/// all be held by the format and expand to the data.
pub proof fn lemma_checked(data: Seq<u8>, codes: Seq<Code>)
    ensures
        all_valid(checked(data, codes)),
        expand(blank_window(), checked(data, codes)) == data,
{
    assert(data.take(0) =~= Seq::<u8>::empty());
    lemma_checked_from(data, codes, 0);
}

/// Codes that the format can hold and that expand to the data are written as
/// they are: the check changes nothing of what a sound match finder finds.
pub proof fn lemma_checked_keeps(data: Seq<u8>, codes: Seq<Code>)
    requires
        all_valid(codes),
        expand(blank_window(), codes) == data,
    ensures
        checked(data, codes) == codes,
{
    assert(data.take(0) =~= Seq::<u8>::empty());
    lemma_checked_from_keeps(data, codes, 0);
}

/// Codes that all fit from `cur` on are written as they are.
pub proof fn lemma_checked_from_keeps(data: Seq<u8>, codes: Seq<Code>, cur: int)
    requires
        0 <= cur <= data.len(),
        all_valid(codes),
        expand_onto(blank_window(), data.take(cur), codes) == data,
    ensures
        checked_from(data, codes, cur) == codes,
    decreases codes.len(),
{
    lemma_expand_len(blank_window(), data.take(cur), codes);
    if codes.len() == 0 {
        assert(literals(data, cur) =~= codes);
    } else {
        let code = codes[0];
        let next = apply(blank_window(), data.take(cur), code);
        lemma_expand_len(blank_window(), next, codes.skip(1));
        lemma_expand_keeps_prefix(blank_window(), next, codes.skip(1));
        assert(next == data.take(next.len() as int));
        match code {
            Code::Symbol(byte) => {
                assert(next[cur] == byte);
            },
            Code::Reference { len, pos } => {
                assert(code.valid());
                lemma_copy_run_extends(
                    blank_window(),
                    data.take(cur),
                    pos as int,
                    len as nat,
                );
                lemma_copy_run_copies(data, cur, pos as int, len as nat);
            },
        }
        assert(fits(data, cur, code));
        assert(all_valid(codes.skip(1)));
        lemma_checked_from_keeps(data, codes.skip(1), cur + code.span());
        assert(seq![code] + codes.skip(1) =~= codes);
    }
}

/// Codes only add to the output: what was there stays in front.
pub proof fn lemma_expand_keeps_prefix(dict: Seq<u8>, out: Seq<u8>, codes: Seq<Code>)
    ensures
        expand_onto(dict, out, codes).len() >= out.len(),
        expand_onto(dict, out, codes).take(out.len() as int) == out,
    decreases codes.len(),
{
    if codes.len() == 0 {
        assert(out.take(out.len() as int) =~= out);
    } else {
        let next = apply(dict, out, codes[0]);
        match codes[0] {
            Code::Symbol(byte) => {
                assert(next.take(out.len() as int) =~= out);
            },
            Code::Reference { len, pos } => {
                lemma_copy_run_extends(dict, out, pos as int, len as nat);
            },
        }
        lemma_expand_keeps_prefix(dict, next, codes.skip(1));
        let all = expand_onto(dict, out, codes);
        assert(all.take(out.len() as int) =~= all.take(next.len() as int).take(out.len() as int));
    }
}

/// A run of copies that gives the bytes of the data is one that fits.
pub proof fn lemma_copy_run_copies(data: Seq<u8>, cur: int, pos: int, n: nat)
    requires
        0 <= cur,
        cur + n <= data.len(),
        0 <= pos < WINDOW,
        copy_run(blank_window(), data.take(cur), pos, n) == data.take(cur + n),
    ensures
        forall|k: int| 0 <= k < n ==> #[trigger] copies(data, cur + k, pos),
    decreases n,
{
    if n > 0 {
        let out = data.take(cur);
        let byte = window_byte(blank_window(), out, pos);
        let next = out.push(byte);
        lemma_copy_run_extends(blank_window(), next, pos, (n - 1) as nat);
        let all = data.take(cur + n);
        assert(all.take(next.len() as int) == next);
        assert(all.take(next.len() as int)[cur] == data[cur]);
        assert(byte == data[cur]);
        assert(next =~= data.take(cur + 1));
        lemma_copy_run_copies(data, cur + 1, pos, (n - 1) as nat);
        assert forall|k: int| 0 <= k < n implies #[trigger] copies(data, cur + k, pos) by {
            if k > 0 {
                assert(copies(data, cur + 1 + (k - 1), pos));
            }
        }
    }
}

/// `compression::prelude::LzssEncoder`, made by `with_dict` and run over
/// `data` to the end, with `comparison` as the order of its candidates.
///
/// Nothing is claimed of the codes that come back. The library runs the
/// encoder in one configuration only, and the `requires` admits no other.
#[verifier::external_body]
fn encoder_codes(
    window: usize,
    max_match: usize,
    min_match: usize,
    lazy_level: usize,
    dict: &[u8],
    data: &[u8],
) -> (codes: Vec<Code>)
    requires
        window == WINDOW,
        max_match == MAX_MATCH,
        min_match == MIN_MATCH,
        lazy_level == LAZY_LEVEL,
        dict@ == blank_window(),
{
    let own = |code: LzssCode| match code {
        LzssCode::Symbol(byte) => Code::Symbol(byte),
        LzssCode::Reference { len, pos } => Code::Reference { len, pos },
    };
    let order = move |lhs: LzssCode, rhs: LzssCode| comparison(own(lhs), own(rhs));
    let mut encoder =
        LzssEncoder::with_dict(order, window, max_match, min_match, lazy_level, dict);
    let found = data.iter().cloned().encode(&mut encoder, Action::Finish);
    found.map(|code| own(code.unwrap())).collect()
}

/// Whether `code` stands for the bytes of `data` from `cur` on.
fn code_fits(data: &[u8], cur: usize, code: Code) -> (ok: bool)
    requires
        cur <= data@.len(),
    ensures
        ok == fits(data@, cur as int, code),
{
    match code {
        Code::Symbol(byte) => cur < data.len() && data[cur] == byte,
        Code::Reference { len, pos } => {
            if len < MIN_MATCH || len > MAX_MATCH || pos >= WINDOW || len > data.len() - cur {
                return false;
            }
            let mut k: usize = 0;
            while k < len
                invariant
                    k <= len,
                    cur + len <= data@.len() <= usize::MAX,
                    code == (Code::Reference { len, pos }),
                    code.valid(),
                    forall|j: int| 0 <= j < k ==> #[trigger] copies(data@, cur + j, pos as int),
                decreases len - k,
            {
                let at = cur + k;
                let source = if at > pos {
                    data[at - 1 - pos]
                } else {
                    FILL
                };
                if data[at] != source {
                    assert(!copies(data@, cur + k, pos as int));
                    return false;
                }
                k = k + 1;
            }
            true
        },
    }
}

/// Keeps the codes of a match finder up to the first that does not stand for
/// the bytes of `data` at its place, and adds literals for what they leave.
pub fn checked_codes(data: &[u8], codes: &Vec<Code>) -> (out: Vec<Code>)
    ensures
        out@ == checked(data@, codes@),
        all_valid(out@),
        expand(blank_window(), out@) == data@,
{
    let n = data.len();
    let mut out: Vec<Code> = Vec::new();
    let mut cur: usize = 0;
    let mut i: usize = 0;
    let mut fitting = true;
    assert(codes@.skip(0) =~= codes@);
    assert(out@ + checked(data@, codes@) =~= checked(data@, codes@));
    while fitting && i < codes.len()
        invariant
            i <= codes@.len(),
            cur <= n,
            n == data@.len(),
            fitting ==> checked(data@, codes@) == out@ + checked_from(
                data@,
                codes@.skip(i as int),
                cur as int,
            ),
            !fitting ==> checked(data@, codes@) == out@ + literals(data@, cur as int),
        decreases codes@.len() - i, (if fitting { 1nat } else { 0nat }),
    {
        let code = codes[i];
        let ghost rest = codes@.skip(i as int);
        assert(rest[0] == code);
        if code_fits(data, cur, code) {
            let ghost before = out@;
            let ghost tail = checked_from(data@, rest.skip(1), cur + code.span());
            out.push(code);
            assert(rest.skip(1) =~= codes@.skip(i + 1));
            assert(before + (seq![code] + tail) =~= out@ + tail);
            cur = cur + match code {
                Code::Symbol(_) => 1,
                Code::Reference { len, pos: _ } => len,
            };
            i = i + 1;
        } else {
            fitting = false;
        }
    }
    while cur < n
        invariant
            cur <= n,
            n == data@.len(),
            checked(data@, codes@) == out@ + literals(data@, cur as int),
        decreases n - cur,
    {
        let ghost before = out@;
        out.push(Code::Symbol(data[cur]));
        assert(before + literals(data@, cur as int) =~= out@ + literals(data@, cur + 1));
        cur = cur + 1;
    }
    proof {
        assert(out@ + literals(data@, cur as int) =~= out@);
        lemma_checked(data@, codes@);
    }
    out
}

/// The control byte of the block that starts with code `i`.
fn block_control(codes: &Vec<Code>, i: usize) -> (control: u8)
    requires
        i <= codes@.len(),
    ensures
        control == control_byte(codes@.skip(i as int)),
{
    let ghost block = codes@.skip(i as int);
    let mut flags: [u8; 8] = [0; 8];
    let mut j: usize = 0;
    while j < 8
        invariant
            j <= 8,
            i <= codes@.len(),
            block == codes@.skip(i as int),
            forall|t: int| 0 <= t < j ==> flags@[t] == flag(block, t),
            forall|t: int| j <= t < 8 ==> flags@[t] == 0,
        decreases 8 - j,
    {
        if j < codes.len() - i {
            match codes[i + j] {
                Code::Symbol(_) => {
                    flags[j] = 1u8 << (j as u8);
                },
                Code::Reference { .. } => {},
            }
        }
        j = j + 1;
    }
    flags[0] | flags[1] | flags[2] | flags[3] | flags[4] | flags[5] | flags[6] | flags[7]
}

/// Writes the token stream for `codes`.
pub fn pack_codes(codes: &Vec<Code>) -> (stream: Vec<u8>)
    requires
        all_valid(codes@),
    ensures
        stream@ == packed(codes@),
        parse(stream@) == codes@,
{
    let mut stream: Vec<u8> = Vec::new();
    let mut k: u8 = 8;
    let mut ahead: usize = 0;
    let ghost mut total: int = 0;
    let mut i: usize = 0;
    assert(codes@.skip(0) =~= codes@);
    assert(stream@ + packed(codes@) =~= packed(codes@));
    while i < codes.len()
        invariant
            i <= codes@.len(),
            k <= 8,
            all_valid(codes@),
            ahead == total % (WINDOW as int),
            packed(codes@) == stream@ + tokens(codes@.skip(i as int), k as nat, total),
        decreases codes@.len() - i,
    {
        let ghost rest = codes@.skip(i as int);
        if k == 8 {
            let ghost before = stream@;
            stream.push(block_control(codes, i));
            k = 0;
            assert(before + (seq![control_byte(rest)] + tokens(rest, 0, total)) =~= stream@
                + tokens(rest, 0, total));
        }
        let code = codes[i];
        assert(rest[0] == code);
        assert(code.valid());
        let ghost before = stream@;
        let ghost tail = tokens(rest.skip(1), (k + 1) as nat, total + code.span());
        assert(rest.skip(1) =~= codes@.skip(i + 1));
        match code {
            Code::Symbol(byte) => {
                stream.push(byte);
                ahead = step_ahead(ahead, 1, Ghost(total));
            },
            Code::Reference { len, pos } => {
                let offset = across(ahead, pos, Ghost(total));
                let high: u8 = (#[verifier::truncate] ((offset >> 4) as u8)) & 0x30;
                stream.push(#[verifier::truncate] (offset as u8));
                stream.push(high | ((len - 3) as u8));
                ahead = step_ahead(ahead, len, Ghost(total));
            },
        }
        assert(before + (token_bytes(code, total) + tail) =~= stream@ + tail);
        proof {
            total = total + code.span();
        }
        k = k + 1;
        i = i + 1;
    }
    proof {
        assert(stream@ + Seq::<u8>::empty() =~= stream@);
        lemma_parse_packed(codes@);
    }
    stream
}

/// Compresses `data` to a token stream that decompresses to `data`.
///
/// The match finder of the `compression` crate proposes the codes: it looks
/// for the longest match of three to eighteen bytes in the last 1024, the
/// window of spaces before the input included, and prefers the nearest among
/// matches of one length.
pub fn compress(data: &[u8]) -> (stream: Vec<u8>)
    ensures
        unpacked(stream@) == data@,
        all_valid(parse(stream@)),
        stream@ == packed(parse(stream@)),
{
    let dict = blank();
    let found = encoder_codes(WINDOW, MAX_MATCH, MIN_MATCH, LAZY_LEVEL, dict.as_slice(), data);
    let codes = checked_codes(data, &found);
    pack_codes(&codes)
}

} // verus!
