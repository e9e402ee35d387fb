//! The 31-bit Lehmer generator that drives the key schedule and the cipher.
//!
//! The generator is `minstd::MINSTD0`. What this module adds is the way a
//! 32-bit value is turned into a seed that the generator accepts, and the
//! mathematical model of the stream that the rest of the crate reasons with.

use vstd::prelude::*;

verus! {

/// The modulus of the generator, the Mersenne prime 2^31 - 1.
pub const MODULUS: u32 = 0x7FFF_FFFF;

/// The multiplier of the generator.
pub const MULTIPLIER: u32 = 16807;

/// The number of one bits among the lowest `n` bits of `x`.
pub open spec fn ones_below(x: u32, n: u32) -> int
    decreases n,
{
    if n == 0 {
        0
    } else {
        ones_below(x, (n - 1) as u32) + ((x >> ((n - 1) as u32)) & 1)
    }
}

/// The number of one bits in `x`.
pub open spec fn popcount(x: u32) -> int {
    ones_below(x, 32)
}

/// The bit that step `i` of seed normalisation touches: 12, 23, 10, 25, 8,
/// 27, 6, 29 for `i` from 5 to 12.
pub open spec fn toggle_position(i: u32) -> u32 {
    (17 + i - 2 * i * (i & 1)) as u32
}

/// The mask with only the bit of step `i` set.
pub open spec fn toggle_mask(i: u32) -> u32 {
    1u32 << toggle_position(i)
}

/// `seed` after the steps from `i` up to, not including, `end` have each set
/// their bit. No step beyond 12 exists.
pub open spec fn set_phase(seed: u32, i: u32, end: int) -> u32
    decreases 13 - i,
{
    if i < 13 && i < end {
        set_phase(seed | toggle_mask(i), (i + 1) as u32, end)
    } else {
        seed
    }
}

/// `seed` after the steps from `i` up to, not including, `end` have each
/// cleared their bit.
pub open spec fn clear_phase(seed: u32, i: u32, end: int) -> u32
    decreases 13 - i,
{
    if i < 13 && i < end {
        clear_phase(seed & !toggle_mask(i), (i + 1) as u32, end)
    } else {
        seed
    }
}

/// The seed that a 32-bit value is normalised to: the top bit is dropped,
/// then as many steps set their bit as the value is short of eight one bits,
/// then as many steps clear their bit as it has one bits beyond twenty-four.
pub open spec fn normalised(s: u32) -> u32 {
    let masked = s & 0x7FFF_FFFF;
    let filled = set_phase(masked, 5, 13 - popcount(masked));
    clear_phase(filled, 5, popcount(filled) - 19)
}

/// What one step of the generator makes of a state in `1..MODULUS`.
pub open spec fn advance(state: u32) -> u32 {
    ((state as int * MULTIPLIER as int) % (MODULUS as int)) as u32
}

/// One step written with the overflow folded back by addition: the product
/// is split at bit 31, the two halves are added, and a sum beyond 31 bits
/// wraps round once more.
pub open spec fn advance_folded(state: u32) -> u32 {
    let product = (state as u64 * MULTIPLIER as u64) as u64;
    let sum = (product & 0x7FFF_FFFF) + (product >> 31);
    if sum > 0x7FFF_FFFF {
        ((sum as u64 & 0x7FFF_FFFF) + 1) as u32
    } else {
        sum as u32
    }
}

/// The state that `n` steps lead to from `start`.
pub open spec fn state_after(start: u32, n: nat) -> u32
    decreases n,
{
    if n == 0 {
        start
    } else {
        advance(state_after(start, (n - 1) as nat))
    }
}

/// The lowest eight bits of a sample.
pub open spec fn low_byte(sample: u32) -> u8 {
    sample as u8
}

/// A state that the generator can be in.
pub open spec fn valid_state(state: u32) -> bool {
    1 <= state < MODULUS
}

/// Every normalised seed is a state that the generator accepts.
pub proof fn lemma_normalised_valid(s: u32)
    ensures
        valid_state(normalised(s)),
{
    assert(1 <= normalised(s) && normalised(s) < 0x7FFF_FFFFu32) by (bit_vector);
}

/// A step leads from a valid state to a valid state: 16807 has an inverse
/// modulo 2^31 - 1, so no product of it with a valid state is a multiple of
/// the modulus.
pub proof fn lemma_advance_valid(state: u32)
    requires
        valid_state(state),
    ensures
        valid_state(advance(state)),
{
    let m = MODULUS as int;
    let p = state as int * 16807;
    let r = p % m;
    assert(0 <= r < m);
    if r == 0 {
        let k = p / m;
        assert(p == m * k) by {
            vstd::arithmetic::div_mod::lemma_fundamental_div_mod(p, m);
        }
        assert(16807 * 1407677000 == 11017 * m + 1);
        let t = k * 1407677000 - state as int * 11017;
        assert(state as int == m * t) by (nonlinear_arith)
            requires
                state as int * 16807 == m * k,
                16807 * 1407677000 == 11017 * m + 1,
                t == k * 1407677000 - state as int * 11017,
        ;
        assert(false) by (nonlinear_arith)
            requires
                state as int == m * t,
                1 <= state as int,
                (state as int) < m,
        ;
    }
}

/// All states of a stream that starts from a valid state are valid.
pub proof fn lemma_state_after_valid(start: u32, n: nat)
    requires
        valid_state(start),
    ensures
        valid_state(state_after(start, n)),
    decreases n,
{
    if n > 0 {
        lemma_state_after_valid(start, (n - 1) as nat);
        lemma_advance_valid(state_after(start, (n - 1) as nat));
    }
}

/// On valid states, folding the overflow back by addition gives what
/// reduction modulo 2^31 - 1 gives.
pub proof fn lemma_advance_folded(state: u32)
    requires
        valid_state(state),
    ensures
        advance_folded(state) == advance(state),
{
    let product = (state as u64 * MULTIPLIER as u64) as u64;
    let lo = product & 0x7FFF_FFFF;
    let hi = product >> 31;
    assert(product == state as int * 16807) by (nonlinear_arith)
        requires
            state < 0x7FFF_FFFF,
            product == (state as u64 * 16807u64) as u64,
    ;
    assert(product == hi * 0x8000_0000 + lo && lo <= 0x7FFF_FFFF && hi <= 16807) by (bit_vector)
        requires
            lo == product & 0x7FFF_FFFF,
            hi == product >> 31,
            product <= 0x7FFF_FFFFu64 * 16807,
    ;
    lemma_advance_valid(state);
    let m = MODULUS as int;
    let sum = lo + hi;
    assert(product as int == hi * m + sum);
    if sum > 0x7FFF_FFFF {
        let wide = sum as u64;
        assert((wide & 0x7FFF_FFFF) + 1 == wide - 0x7FFF_FFFF) by (bit_vector)
            requires
                wide > 0x7FFF_FFFF,
                wide <= 0x7FFF_FFFF + 16807,
        ;
        assert(product as int == (hi + 1) * m + (sum - m));
        vstd::arithmetic::div_mod::lemma_fundamental_div_mod_converse(
            product as int,
            m,
            hi + 1,
            sum - m,
        );
    } else {
        if sum == m {
            vstd::arithmetic::div_mod::lemma_fundamental_div_mod_converse(
                product as int,
                m,
                hi + 1,
                0,
            );
        } else {
            vstd::arithmetic::div_mod::lemma_fundamental_div_mod_converse(
                product as int,
                m,
                hi as int,
                sum,
            );
        }
    }
}

/// Counts the one bits of `x`.
pub fn count_ones(x: u32) -> (n: u32)
    ensures
        n == popcount(x),
        n <= 32,
{
    let mut n: u32 = 0;
    let mut i: u32 = 0;
    while i < 32
        invariant
            i <= 32,
            n <= i,
            n == ones_below(x, i),
        decreases 32 - i,
    {
        let bit: u32 = (x >> i) & 1;
        assert(bit <= 1) by (bit_vector)
            requires
                bit == (x >> i) & 1,
        ;
        n = n + bit;
        i = i + 1;
    }
    n
}

/// The mask of step `i` of seed normalisation.
fn step_mask(i: u32) -> (mask: u32)
    requires
        5 <= i < 13,
    ensures
        mask == toggle_mask(i),
{
    let odd: u32 = i & 1;
    assert(odd == 0 || odd == 1) by (bit_vector)
        requires
            odd == i & 1,
    ;
    assert(2 * i * odd == (if odd == 1 { 2 * i } else { 0 })) by (nonlinear_arith)
        requires
            odd == 0 || odd == 1,
    ;
    let position: u32 = 17 + i - 2 * i * odd;
    1u32 << position
}

/// Normalises a 32-bit value to a seed that the generator accepts.
pub fn normalise(s: u32) -> (seed: u32)
    ensures
        seed == normalised(s),
        valid_state(seed),
{
    let masked: u32 = s & 0x7FFF_FFFF;
    let mut seed: u32 = masked;
    let ones: u32 = count_ones(seed);
    let mut i: u32 = 5;
    while i + ones < 13
        invariant
            5 <= i <= 13,
            ones == popcount(masked),
            ones <= 32,
            set_phase(seed, i, 13 - ones) == set_phase(masked, 5, 13 - ones),
        decreases 13 - i,
    {
        seed = seed | step_mask(i);
        i = i + 1;
    }
    let filled: u32 = seed;
    let ones: u32 = count_ones(seed);
    let mut i: u32 = 5;
    while i + 19 < ones
        invariant
            5 <= i <= 13,
            ones == popcount(filled),
            ones <= 32,
            clear_phase(seed, i, ones - 19) == clear_phase(filled, 5, ones - 19),
        decreases 13 - i,
    {
        seed = seed & !step_mask(i);
        i = i + 1;
    }
    proof {
        lemma_normalised_valid(s);
    }
    seed
}

/// One step of `minstd::MINSTD0`: a generator seeded with `state` hands out
/// the product of its state and 16807, reduced modulo 2^31 - 1.
/// `MINSTD0::seed` takes no seed but those in `1..MODULUS`, hence the
/// `requires`.
#[verifier::external_body]
fn lehmer_step(state: u32) -> (next: u32)
    requires
        valid_state(state),
    ensures
        next == advance(state),
{
    minstd::MINSTD0::seed(state as i32).next() as u32
}

/// The generator: its state is the sample that it handed out last, or the
/// seed while it has handed out none. The state is always a valid one.
pub struct Prng {
    state: u32,
}

impl Prng {
    #[verifier::type_invariant]
    spec fn in_range(&self) -> bool {
        valid_state(self.state)
    }

    /// The current state.
    pub closed spec fn view(&self) -> u32 {
        self.state
    }

    /// A generator in the given state, where the state is a valid one.
    pub fn from_state(state: u32) -> (r: Option<Prng>)
        ensures
            r is Some <==> valid_state(state),
            r matches Some(g) ==> g@ == state,
    {
        if 1 <= state && state < MODULUS {
            Some(Prng { state })
        } else {
            None
        }
    }

    /// The current state.
    pub fn state(&self) -> (s: u32)
        ensures
            s == self@,
            valid_state(s),
    {
        proof {
            use_type_invariant(self);
        }
        self.state
    }

    /// Hands out the next sample and moves on to it.
    pub fn next(&mut self) -> (sample: u32)
        ensures
            valid_state(old(self)@),
            sample == advance(old(self)@),
            final(self)@ == sample,
    {
        proof {
            use_type_invariant(&*self);
            lemma_advance_valid(self.state);
        }
        let sample = lehmer_step(self.state);
        self.state = sample;
        sample
    }
}

/// A generator seeded from a 32-bit value.
pub fn rng(seed: u32) -> (g: Prng)
    ensures
        g@ == normalised(seed),
{
    Prng { state: normalise(seed) }
}

} // verus!
