//! The keyed stream cipher that hides the compressed body of a file.
//!
//! Two masks, a starting index and a stride are drawn from the generator
//! seeded with the CRC-32 of the key. Every byte is XORed with a byte of the
//! first mask; every byte on the stride is XORed with a byte of the second
//! mask as well. Each step is an XOR with a value that depends on the key,
//! the position and the length alone, so the cipher undoes itself.

use vstd::prelude::*;
use crate::crc::{checksum, crc32};
use crate::key::KEY_LEN;
use crate::prng::{low_byte, normalised, rng, state_after, Prng};

verus! {

/// The state that the generator starts from for `key`.
pub open spec fn cipher_seed(key: Seq<u8>) -> u32 {
    normalised(crc32(key))
}

/// The length of the first mask, 128 to 255: drawn from the first sample.
pub open spec fn flavor1_len(seed: u32) -> int {
    (state_after(seed, 1) & 0x7F) + 0x80
}

/// Byte `j` of the first mask: the low byte of the sample that follows the
/// mask's length and the bytes before `j`.
pub open spec fn flavor1_byte(seed: u32, j: int) -> u8 {
    low_byte(state_after(seed, (2 + j) as nat))
}

/// The length of the second mask, 17 to 32: drawn from the sample after the
/// first mask.
pub open spec fn flavor2_len(seed: u32) -> int {
    (state_after(seed, (2 + flavor1_len(seed)) as nat) & 0xF) + 0x11
}

/// Byte `j` of the second mask.
pub open spec fn flavor2_byte(seed: u32, j: int) -> u8 {
    low_byte(state_after(seed, (3 + flavor1_len(seed) + j) as nat))
}

/// The sample that the starting index is taken from, the one after the second
/// mask.
pub open spec fn start_sample(seed: u32) -> u32 {
    state_after(seed, (3 + flavor1_len(seed) + flavor2_len(seed)) as nat)
}

/// The stride, 8192 to 16383: drawn from the last sample.
pub open spec fn stride(seed: u32) -> int {
    (state_after(seed, (4 + flavor1_len(seed) + flavor2_len(seed)) as nat) & 0x1FFF) + 0x2000
}

/// Whether the byte at `i`, in data of `len` bytes, lies on the stride.
pub open spec fn on_stride(seed: u32, len: int, i: int) -> bool {
    let start = start_sample(seed) as int % len;
    i >= start && (i - start) % stride(seed) == 0
}

/// The index into the second mask for position `i`: the key byte of that
/// position XORed with the position, reduced to the mask's length.
pub open spec fn flavor2_index(key: Seq<u8>, seed: u32, i: int) -> int {
    ((key[i % (KEY_LEN as int)] as usize) ^ (i as usize)) as int % flavor2_len(seed)
}

/// What all the masks together XOR into the byte at `i`.
pub open spec fn mask_at(key: Seq<u8>, len: int, i: int) -> u8 {
    let seed = cipher_seed(key);
    let first = flavor1_byte(seed, i % flavor1_len(seed));
    if on_stride(seed, len, i) {
        first ^ flavor2_byte(seed, flavor2_index(key, seed, i))
    } else {
        first
    }
}

/// `data` under the cipher with `key`.
pub open spec fn cipher(key: Seq<u8>, data: Seq<u8>) -> Seq<u8> {
    Seq::new(data.len(), |i: int| data[i] ^ mask_at(key, data.len() as int, i))
}

/// The cipher applied twice with one key gives the data back.
pub proof fn lemma_cipher_involution(key: Seq<u8>, data: Seq<u8>)
    ensures
        cipher(key, cipher(key, data)) == data,
{
    let once = cipher(key, data);
    let twice = cipher(key, once);
    assert forall|i: int| 0 <= i < data.len() implies twice[i] == data[i] by {
        let mask = mask_at(key, data.len() as int, i);
        let byte = data[i];
        assert((byte ^ mask) ^ mask == byte) by (bit_vector);
    }
    assert(twice =~= data);
}

/// Steps add up: `b` steps after `a` steps are `a + b` steps.
pub proof fn lemma_state_after_add(start: u32, a: nat, b: nat)
    ensures
        state_after(state_after(start, a), b) == state_after(start, a + b),
    decreases b,
{
    if b > 0 {
        lemma_state_after_add(start, a, (b - 1) as nat);
    }
}

/// Draws `count` samples and keeps the low byte of each.
fn draw_mask(generator: &mut Prng, count: usize) -> (mask: Vec<u8>)
    ensures
        final(generator)@ == state_after(old(generator)@, count as nat),
        mask@.len() == count,
        forall|j: int|
            0 <= j < count ==> mask@[j] == low_byte(state_after(old(generator)@, (j + 1) as nat)),
{
    let mut mask: Vec<u8> = Vec::new();
    let mut j: usize = 0;
    while j < count
        invariant
            j <= count,
            generator@ == state_after(old(generator)@, j as nat),
            mask@.len() == j,
            forall|k: int|
                0 <= k < j ==> mask@[k] == low_byte(state_after(old(generator)@, (k + 1) as nat)),
        decreases count - j,
    {
        let sample = generator.next();
        mask.push(#[verifier::truncate] (sample as u8));
        j = j + 1;
    }
    mask
}

/// Enciphers or deciphers `data` with `key`: the two are one operation.
///
/// Data of no bytes comes back as it is, and draws nothing from the
/// generator.
pub fn encrypt_decrypt(key: [u8; 16], data: &[u8]) -> (out: Vec<u8>)
    ensures
        out@ == cipher(key@, data@),
{
    let n = data.len();
    let mut out: Vec<u8> = Vec::new();
    if n == 0 {
        assert(out@ =~= cipher(key@, data@));
        return out;
    }
    let mut generator = rng(checksum(key.as_slice()));
    let ghost seed = generator@;
    proof {
        lemma_state_after_add(seed, 0, 1);
    }
    let sample = generator.next();
    let low = sample & 0x7F;
    assert(low <= 0x7F) by (bit_vector)
        requires
            low == sample & 0x7F,
    ;
    let len1: usize = (low + 0x80) as usize;
    let flavor1 = draw_mask(&mut generator, len1);
    proof {
        lemma_state_after_add(seed, 1, len1 as nat);
        lemma_state_after_add(seed, (1 + len1) as nat, 1);
        assert forall|j: int| 0 <= j < len1 implies flavor1@[j] == flavor1_byte(seed, j) by {
            lemma_state_after_add(seed, 1, (j + 1) as nat);
        }
    }
    let sample = generator.next();
    let low = sample & 0xF;
    assert(low <= 0xF) by (bit_vector)
        requires
            low == sample & 0xF,
    ;
    let len2: usize = (low + 0x11) as usize;
    let flavor2 = draw_mask(&mut generator, len2);
    proof {
        lemma_state_after_add(seed, (2 + len1) as nat, len2 as nat);
        lemma_state_after_add(seed, (2 + len1 + len2) as nat, 1);
        lemma_state_after_add(seed, (3 + len1 + len2) as nat, 1);
        assert forall|j: int| 0 <= j < len2 implies flavor2@[j] == flavor2_byte(seed, j) by {
            lemma_state_after_add(seed, (2 + len1) as nat, (j + 1) as nat);
        }
    }
    let start: usize = generator.next() as usize % n;
    let sample = generator.next();
    let low = sample & 0x1FFF;
    assert(low <= 0x1FFF) by (bit_vector)
        requires
            low == sample & 0x1FFF,
    ;
    let step: usize = (low + 0x2000) as usize;
    let mut i: usize = 0;
    while i < n
        invariant
            i <= n,
            n == data@.len(),
            len1 == flavor1_len(seed),
            len2 == flavor2_len(seed),
            0x80 <= len1 <= 0xFF,
            0x11 <= len2 <= 0x20,
            flavor1@.len() == len1,
            flavor2@.len() == len2,
            forall|j: int| 0 <= j < len1 ==> flavor1@[j] == flavor1_byte(seed, j),
            forall|j: int| 0 <= j < len2 ==> flavor2@[j] == flavor2_byte(seed, j),
            start == start_sample(seed) as int % (n as int),
            step == stride(seed),
            0x2000 <= step <= 0x3FFF,
            seed == cipher_seed(key@),
            out@.len() == i,
            forall|j: int| 0 <= j < i ==> out@[j] == data@[j] ^ mask_at(key@, n as int, j),
        decreases n - i,
    {
        let mut byte: u8 = data[i] ^ flavor1[i % len1];
        if i >= start && (i - start) % step == 0 {
            let index: usize = ((key[i % KEY_LEN] as usize) ^ i) % len2;
            byte = byte ^ flavor2[index];
            assert(byte == data@[i as int] ^ mask_at(key@, n as int, i as int)) by {
                let d = data@[i as int];
                let a = flavor1@[(i % len1) as int];
                let b = flavor2@[index as int];
                assert((d ^ a) ^ b == d ^ (a ^ b)) by (bit_vector);
            }
        }
        out.push(byte);
        i = i + 1;
    }
    assert(out@ =~= cipher(key@, data@));
    out
}

} // verus!
