//! The token stream: blocks of a control byte and up to eight tokens.
//!
//! The bits of the control byte, lowest first, tell what each token is: a set
//! bit stands for a literal of one byte, a clear bit for a back-reference of
//! two bytes. A back-reference stores a ten-bit offset, its low eight bits in
//! the first byte and the other two in bits 4 and 5 of the second, and its
//! length less three in the low four bits of the second.

use vstd::prelude::*;
use crate::lzss::code::{all_valid, Code, MAX_MATCH, MIN_MATCH, WINDOW};

verus! {

/// How far the stored offsets lie ahead of the output: the writer of the
/// format leaves this many bytes of the window unused at the start.
pub const LEAD: usize = 16;

/// The window position of a back-reference that stores `offset`, read when
/// `total` bytes have been put out. The source of the copy is byte
/// `total - position_of(total, offset) - 1` of the output.
pub open spec fn position_of(total: int, offset: int) -> int {
    (total - offset - LEAD) % (WINDOW as int)
}

/// The offset that a back-reference to window position `pos` stores when
/// `total` bytes have been put out.
pub open spec fn offset_of(total: int, pos: int) -> int {
    (total - pos - LEAD) % (WINDOW as int)
}

/// Whether bit `k` of a control byte announces a literal.
pub open spec fn is_literal(control: u8, k: nat) -> bool {
    (control >> (k as u8)) & 1 == 1
}

/// The ten-bit offset in the two bytes of a back-reference.
pub open spec fn stored_offset(b0: u8, b1: u8) -> usize {
    (b0 as usize) | (((b1 & 0x30) as usize) << 4)
}

/// The length in the second byte of a back-reference.
pub open spec fn stored_len(b1: u8) -> usize {
    ((b1 & 0x0F) + 3) as usize
}

/// The back-reference that the two bytes stand for when `total` bytes have
/// been put out.
pub open spec fn reference_at(b0: u8, b1: u8, total: int) -> Code {
    Code::Reference {
        len: stored_len(b1),
        pos: position_of(total, stored_offset(b0, b1) as int) as usize,
    }
}

/// The codes in `stream`, which is what is left of a token stream after `k`
/// tokens of the block under `control`, when `total` bytes have been put
/// out. The stream ends where a byte is missing: a back-reference cut in two
/// is dropped.
pub open spec fn parse_from(stream: Seq<u8>, control: u8, k: nat, total: int) -> Seq<Code>
    decreases stream.len(), 8 - k,
{
    if stream.len() == 0 {
        Seq::empty()
    } else if k >= 8 {
        parse_from(stream.skip(1), stream[0], 0, total)
    } else if is_literal(control, k) {
        seq![Code::Symbol(stream[0])] + parse_from(stream.skip(1), control, k + 1, total + 1)
    } else if stream.len() < 2 {
        Seq::empty()
    } else {
        let code = reference_at(stream[0], stream[1], total);
        seq![code] + parse_from(stream.skip(2), control, k + 1, total + code.span())
    }
}

/// The codes in a token stream.
pub open spec fn parse(stream: Seq<u8>) -> Seq<Code> {
    parse_from(stream, 0, 8, 0)
}

/// The bit that code `j` of a block sets in its control byte.
pub open spec fn flag(codes: Seq<Code>, j: int) -> u8 {
    if j < codes.len() && codes[j] is Symbol {
        1u8 << (j as u8)
    } else {
        0
    }
}

/// The control byte of the block that starts with `codes`: one bit for each
/// of the first eight codes, as far as there are any.
pub open spec fn control_byte(codes: Seq<Code>) -> u8 {
    flag(codes, 0) | flag(codes, 1) | flag(codes, 2) | flag(codes, 3) | flag(codes, 4) | flag(
        codes,
        5,
    ) | flag(codes, 6) | flag(codes, 7)
}

/// The bytes of one token, written when `total` bytes have been put out.
pub open spec fn token_bytes(code: Code, total: int) -> Seq<u8> {
    match code {
        Code::Symbol(byte) => seq![byte],
        Code::Reference { len, pos } => {
            let offset = offset_of(total, pos as int) as usize;
            seq![offset as u8, (((offset >> 4) as u8) & 0x30) | ((len - 3) as u8)]
        },
    }
}

/// The stream for `codes`, written after `k` tokens of a block, when `total`
/// bytes have been put out. A block that is full is followed by the control
/// byte of the next.
pub open spec fn tokens(codes: Seq<Code>, k: nat, total: int) -> Seq<u8>
    decreases codes.len(), (if k >= 8 { 1nat } else { 0nat }),
{
    if codes.len() == 0 {
        Seq::empty()
    } else if k >= 8 {
        seq![control_byte(codes)] + tokens(codes, 0, total)
    } else {
        token_bytes(codes[0], total) + tokens(codes.skip(1), k + 1, total + codes[0].span())
    }
}

/// The token stream for `codes`.
pub open spec fn packed(codes: Seq<Code>) -> Seq<u8> {
    tokens(codes, 8, 0)
}

/// Every back-reference that two bytes can stand for is one that the format can hold.
pub proof fn lemma_reference_valid(b0: u8, b1: u8, total: int)
    ensures
        reference_at(b0, b1, total).valid(),
{
    let low = b1 & 0x0F;
    assert(low <= 15) by (bit_vector)
        requires
            low == b1 & 0x0F,
    ;
}

/// A back-reference is read back as it was written.
pub proof fn lemma_reference_round_trip(len: usize, pos: usize, total: int)
    requires
        MIN_MATCH <= len <= MAX_MATCH,
        pos < WINDOW,
    ensures
        token_bytes(Code::Reference { len, pos }, total).len() == 2,
        reference_at(
            token_bytes(Code::Reference { len, pos }, total)[0],
            token_bytes(Code::Reference { len, pos }, total)[1],
            total,
        ) == (Code::Reference { len, pos }),
{
    let offset = offset_of(total, pos as int) as usize;
    let b0 = offset as u8;
    let short = (len - 3) as u8;
    let b1 = (((offset >> 4) as u8) & 0x30) | short;
    assert(0 <= offset_of(total, pos as int) < 1024);
    assert(stored_offset(b0, b1) == offset && (b1 & 0x0F) == short) by (bit_vector)
        requires
            offset < 1024,
            short <= 15,
            b0 == offset as u8,
            b1 == (((offset >> 4) as u8) & 0x30) | short,
    ;
    let m = WINDOW as int;
    let q = (total - pos - LEAD) / m;
    vstd::arithmetic::div_mod::lemma_fundamental_div_mod(total - pos - LEAD, m);
    assert(total - offset - LEAD == m * q + pos);
    vstd::arithmetic::div_mod::lemma_fundamental_div_mod_converse(
        total - offset - LEAD,
        m,
        q,
        pos as int,
    );
}

/// Bit `k` of a control byte is set where code `k` of its block is a literal.
pub proof fn lemma_control_bit(codes: Seq<Code>, k: nat)
    requires
        k < 8,
    ensures
        is_literal(control_byte(codes), k) == (k < codes.len() && codes[k as int] is Symbol),
{
    let f0 = flag(codes, 0);
    let f1 = flag(codes, 1);
    let f2 = flag(codes, 2);
    let f3 = flag(codes, 3);
    let f4 = flag(codes, 4);
    let f5 = flag(codes, 5);
    let f6 = flag(codes, 6);
    let f7 = flag(codes, 7);
    let control = f0 | f1 | f2 | f3 | f4 | f5 | f6 | f7;
    let shift = k as u8;
    assert(((control >> shift) & 1 == 1) == (shift == 0 && f0 != 0 || shift == 1 && f1 != 0
        || shift == 2 && f2 != 0 || shift == 3 && f3 != 0 || shift == 4 && f4 != 0 || shift == 5
        && f5 != 0 || shift == 6 && f6 != 0 || shift == 7 && f7 != 0)) by (bit_vector)
        requires
            shift < 8,
            control == f0 | f1 | f2 | f3 | f4 | f5 | f6 | f7,
            f0 == 0 || f0 == 1u8 << 0u8,
            f1 == 0 || f1 == 1u8 << 1u8,
            f2 == 0 || f2 == 1u8 << 2u8,
            f3 == 0 || f3 == 1u8 << 3u8,
            f4 == 0 || f4 == 1u8 << 4u8,
            f5 == 0 || f5 == 1u8 << 5u8,
            f6 == 0 || f6 == 1u8 << 6u8,
            f7 == 0 || f7 == 1u8 << 7u8,
    ;
    assert(1u8 << 0u8 != 0 && 1u8 << 1u8 != 0 && 1u8 << 2u8 != 0 && 1u8 << 3u8 != 0 && 1u8 << 4u8
        != 0 && 1u8 << 5u8 != 0 && 1u8 << 6u8 != 0 && 1u8 << 7u8 != 0) by (bit_vector);
}

/// Whether the flags of `control` from bit `k` on are those of `codes`.
pub open spec fn flags_agree(control: u8, k: nat, codes: Seq<Code>) -> bool {
    forall|j: int|
        0 <= j < codes.len() && k + j < 8 ==> is_literal(control, (k + j) as nat)
            == (#[trigger] codes[j] is Symbol)
}

/// What was written for the rest of a block and the blocks after it is read
/// back as the codes it was written for.
pub proof fn lemma_parse_tokens(codes: Seq<Code>, control: u8, k: nat, total: int)
    requires
        all_valid(codes),
        k <= 8,
        flags_agree(control, k, codes),
    ensures
        parse_from(tokens(codes, k, total), control, k, total) == codes,
    decreases codes.len(), (if k >= 8 { 1nat } else { 0nat }),
{
    let stream = tokens(codes, k, total);
    if codes.len() == 0 {
    } else if k >= 8 {
        let next = control_byte(codes);
        let rest = tokens(codes, 0, total);
        assert(stream.skip(1) =~= rest);
        assert forall|j: int| 0 <= j < codes.len() && j < 8 implies is_literal(next, j as nat) == (
        #[trigger] codes[j] is Symbol) by {
            lemma_control_bit(codes, j as nat);
        }
        lemma_parse_tokens(codes, next, 0, total);
    } else {
        let code = codes[0];
        let rest = tokens(codes.skip(1), k + 1, total + code.span());
        assert(code.valid());
        assert(is_literal(control, k) == (code is Symbol));
        assert(all_valid(codes.skip(1)));
        assert forall|j: int|
            0 <= j < codes.skip(1).len() && k + 1 + j < 8 implies is_literal(
            control,
            (k + 1 + j) as nat,
        ) == (#[trigger] codes.skip(1)[j] is Symbol) by {
            assert(codes.skip(1)[j] == codes[j + 1]);
        }
        lemma_parse_tokens(codes.skip(1), control, k + 1, total + code.span());
        match code {
            Code::Symbol(byte) => {
                assert(stream.skip(1) =~= rest);
                assert(seq![code] + codes.skip(1) =~= codes);
            },
            Code::Reference { len, pos } => {
                lemma_reference_round_trip(len, pos, total);
                assert(stream.skip(2) =~= rest);
                assert(seq![code] + codes.skip(1) =~= codes);
            },
        }
    }
}

/// A token stream is read back as the codes it was written for.
pub proof fn lemma_parse_packed(codes: Seq<Code>)
    requires
        all_valid(codes),
    ensures
        parse(packed(codes)) == codes,
{
    lemma_parse_tokens(codes, 0, 8, 0);
}

/// Every code in a token stream is one that the format can hold: a length
/// of three to eighteen and a position inside the window.
pub proof fn lemma_parse_valid(stream: Seq<u8>, control: u8, k: nat, total: int)
    ensures
        all_valid(parse_from(stream, control, k, total)),
    decreases stream.len(), 8 - k,
{
    if stream.len() == 0 {
    } else if k >= 8 {
        lemma_parse_valid(stream.skip(1), stream[0], 0, total);
    } else if is_literal(control, k) {
        lemma_parse_valid(stream.skip(1), control, k + 1, total + 1);
    } else if stream.len() < 2 {
    } else {
        let code = reference_at(stream[0], stream[1], total);
        lemma_reference_valid(stream[0], stream[1], total);
        lemma_parse_valid(stream.skip(2), control, k + 1, total + code.span());
    }
}

/// The length of the output modulo the window size, after `by` more bytes.
pub(crate) fn step_ahead(ahead: usize, by: usize, Ghost(total): Ghost<int>) -> (next: usize)
    requires
        ahead == total % (WINDOW as int),
        by <= WINDOW,
    ensures
        next == (total + by) % (WINDOW as int),
{
    let next = (ahead + by) % WINDOW;
    proof {
        let m = WINDOW as int;
        vstd::arithmetic::div_mod::lemma_fundamental_div_mod(total, m);
        vstd::arithmetic::div_mod::lemma_fundamental_div_mod((ahead + by) as int, m);
        let q = total / m + (ahead + by) as int / m;
        assert(total + by == m * q + next) by (nonlinear_arith)
            requires
                total == m * (total / m) + ahead,
                ahead + by == m * ((ahead + by) as int / m) + next,
                q == total / m + (ahead + by) as int / m,
        ;
        vstd::arithmetic::div_mod::lemma_fundamental_div_mod_converse(
            total + by,
            m,
            q,
            next as int,
        );
    }
    next
}

/// Turns a stored offset into a window position, or a window position into
/// the offset to store: the two are one computation. Only the length of the
/// output modulo the window size goes into it.
pub(crate) fn across(ahead: usize, at: usize, Ghost(total): Ghost<int>) -> (turned: usize)
    requires
        ahead == total % (WINDOW as int),
        at < WINDOW,
    ensures
        turned == position_of(total, at as int),
        turned == offset_of(total, at as int),
        turned < WINDOW,
{
    let turned = (ahead + 2 * WINDOW - at - LEAD) % WINDOW;
    proof {
        let m = WINDOW as int;
        let q = total / m;
        vstd::arithmetic::div_mod::lemma_fundamental_div_mod(total, m);
        let r = (ahead + 2 * WINDOW - at - LEAD) as int;
        vstd::arithmetic::div_mod::lemma_fundamental_div_mod(r, m);
        assert(total - at - LEAD == m * (q - 2 + r / m) + turned) by (nonlinear_arith)
            requires
                total == m * q + ahead,
                r == ahead + 2 * m - at - LEAD,
                r == m * (r / m) + turned,
        ;
        vstd::arithmetic::div_mod::lemma_fundamental_div_mod_converse(
            total - at - LEAD,
            m,
            q - 2 + r / m,
            turned as int,
        );
    }
    turned
}

} // verus!
