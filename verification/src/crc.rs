//! CRC-32 as IEEE 802.3 defines it: the reflected polynomial 0xEDB88320, a
//! register that starts with all bits set, and a final complement.
//!
//! The sum itself is computed by `crc32fast`; this module states what it is.

use vstd::prelude::*;

verus! {

/// The register after one bit has been shifted out of it.
pub open spec fn crc_shift(register: u32) -> u32 {
    if register & 1 == 1 {
        (register >> 1) ^ 0xEDB8_8320
    } else {
        register >> 1
    }
}

/// The register after `n` bits have been shifted out of it.
pub open spec fn crc_shifts(register: u32, n: nat) -> u32
    decreases n,
{
    if n == 0 {
        register
    } else {
        crc_shift(crc_shifts(register, (n - 1) as nat))
    }
}

/// The register after one more byte of input.
pub open spec fn crc_feed(register: u32, byte: u8) -> u32 {
    crc_shifts(register ^ (byte as u32), 8)
}

/// The register after all of `bytes`.
pub open spec fn crc_register(bytes: Seq<u8>) -> u32
    decreases bytes.len(),
{
    if bytes.len() == 0 {
        0xFFFF_FFFF
    } else {
        crc_feed(crc_register(bytes.drop_last()), bytes.last())
    }
}

/// The CRC-32 of `bytes`.
pub open spec fn crc32(bytes: Seq<u8>) -> u32 {
    !crc_register(bytes)
}

/// The CRC-32 of no input is zero.
pub proof fn lemma_crc32_empty()
    ensures
        crc32(Seq::<u8>::empty()) == 0,
{
    assert(!0xFFFF_FFFFu32 == 0) by (bit_vector);
}

/// One more byte of input feeds the register once more.
pub proof fn lemma_crc_register_push(bytes: Seq<u8>, byte: u8)
    ensures
        crc_register(bytes.push(byte)) == crc_feed(crc_register(bytes), byte),
{
    assert(bytes.push(byte).drop_last() =~= bytes);
}

/// The CRC-32 of the nine ASCII digits "123456789" is 0xCBF43926, the check
/// value by which the standard identifies this CRC.
pub proof fn lemma_crc32_check_value()
    ensures
        crc32(seq![0x31u8, 0x32, 0x33, 0x34, 0x35, 0x36, 0x37, 0x38, 0x39]) == 0xCBF4_3926,
{
    let s0 = Seq::<u8>::empty();
    let s1 = s0.push(0x31);
    let s2 = s1.push(0x32);
    let s3 = s2.push(0x33);
    let s4 = s3.push(0x34);
    let s5 = s4.push(0x35);
    let s6 = s5.push(0x36);
    let s7 = s6.push(0x37);
    let s8 = s7.push(0x38);
    let s9 = s8.push(0x39);
    lemma_crc_register_push(s0, 0x31);
    lemma_crc_register_push(s1, 0x32);
    lemma_crc_register_push(s2, 0x33);
    lemma_crc_register_push(s3, 0x34);
    lemma_crc_register_push(s4, 0x35);
    lemma_crc_register_push(s5, 0x36);
    lemma_crc_register_push(s6, 0x37);
    lemma_crc_register_push(s7, 0x38);
    lemma_crc_register_push(s8, 0x39);
    assert(crc_feed(0xFFFF_FFFF, 0x31) == 0x7C23_1048) by (bit_vector);
    assert(crc_feed(0x7C23_1048, 0x32) == 0xB0AC_BB32) by (bit_vector);
    assert(crc_feed(0xB0AC_BB32, 0x33) == 0x77B7_9C2D) by (bit_vector);
    assert(crc_feed(0x77B7_9C2D, 0x34) == 0x641C_1F5C) by (bit_vector);
    assert(crc_feed(0x641C_1F5C, 0x35) == 0x340A_C5E3) by (bit_vector);
    assert(crc_feed(0x340A_C5E3, 0x36) == 0xF68D_2C9E) by (bit_vector);
    assert(crc_feed(0xF68D_2C9E, 0x37) == 0xAFFC_9660) by (bit_vector);
    assert(crc_feed(0xAFFC_9660, 0x38) == 0x651F_2550) by (bit_vector);
    assert(crc_feed(0x651F_2550, 0x39) == 0x340B_C6D9) by (bit_vector);
    assert(!0x340B_C6D9u32 == 0xCBF4_3926) by (bit_vector);
    assert(s9 =~= seq![0x31u8, 0x32, 0x33, 0x34, 0x35, 0x36, 0x37, 0x38, 0x39]);
}

/// `crc32fast::hash`, which computes the CRC-32 (IEEE) of a byte slice.
#[verifier::external_body]
fn hash(bytes: &[u8]) -> (sum: u32)
    ensures
        sum == crc32(bytes@),
{
    crc32fast::hash(bytes)
}

/// The CRC-32 of `bytes`.
pub fn checksum(bytes: &[u8]) -> (sum: u32)
    ensures
        sum == crc32(bytes@),
{
    hash(bytes)
}

} // verus!
