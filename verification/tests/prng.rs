use decryptor_s2::prng::{count_ones, normalise, rng, Prng, MODULUS};

#[test]
fn state_one_gives_the_classic_sequence() {
    let mut generator = Prng::from_state(1).unwrap();
    let expected: [u32; 10] = [
        16807, 282475249, 1622650073, 984943658, 1144108930, 470211272, 101027544, 1457850878,
        1458777923, 2007237709,
    ];
    for sample in expected {
        assert_eq!(generator.next(), sample);
        assert_eq!(generator.state(), sample);
    }
}

#[test]
fn ten_thousandth_sample_from_state_one() {
    let mut generator = Prng::from_state(1).unwrap();
    let mut last = 0;
    for _ in 0..10000 {
        last = generator.next();
    }
    assert_eq!(last, 1043618065);
}

#[test]
fn from_state_takes_valid_states_only() {
    assert!(Prng::from_state(0).is_none());
    assert!(Prng::from_state(MODULUS).is_none());
    assert!(Prng::from_state(0x8000_0000).is_none());
    assert!(Prng::from_state(u32::MAX).is_none());
    assert_eq!(Prng::from_state(1).unwrap().state(), 1);
    assert_eq!(Prng::from_state(MODULUS - 1).unwrap().state(), MODULUS - 1);
}

#[test]
fn largest_state_steps_to_the_modulus_less_the_multiplier() {
    let mut generator = Prng::from_state(MODULUS - 1).unwrap();
    assert_eq!(generator.next(), MODULUS - 16807);
}

#[test]
fn count_ones_counts() {
    assert_eq!(count_ones(0), 0);
    assert_eq!(count_ones(1), 1);
    assert_eq!(count_ones(0x8000_0000), 1);
    assert_eq!(count_ones(0x7FFF_FFFF), 31);
    assert_eq!(count_ones(u32::MAX), 32);
    assert_eq!(count_ones(0x1234_5678), 13);
    for x in [0u32, 7, 0xDEAD_BEEF, 0x0F0F_0F0F, 0xFFFF_0000] {
        assert_eq!(count_ones(x), x.count_ones());
    }
}

#[test]
fn normalise_fills_sparse_values() {
    // No bit set: all eight steps set theirs, bits 12, 23, 10, 25, 8, 27, 6, 29.
    assert_eq!(normalise(0), 0x2A80_1540);
    // One bit set: seven steps.
    assert_eq!(normalise(1), 0x0A80_1541);
    // The top bit is dropped first.
    assert_eq!(normalise(0x8000_0000), 0x2A80_1540);
    assert_eq!(normalise(0x8000_0001), 0x0A80_1541);
}

#[test]
fn normalise_thins_dense_values() {
    assert_eq!(normalise(0xFFFF_FFFF), 0x757F_EABF);
    assert_eq!(normalise(0x7FFF_FFFF), 0x757F_EABF);
    assert_eq!(normalise(0xFFFF_FFFE), 0x757F_EAFE);
    assert_eq!(normalise(0x7F7F_7F7F), 0x7D7F_6B7F);
}

#[test]
fn normalise_keeps_values_of_eight_to_twenty_four_bits() {
    assert_eq!(normalise(0x1234_5678), 0x1234_5678);
    assert_eq!(normalise(0x00FF_00FF), 0x00FF_00FF);
    assert_eq!(normalise(0x9234_5678), 0x1234_5678);
}

#[test]
fn normalise_counts_steps_not_bits_set() {
    // Seven bits set, one of them bit 12: one step is due, and it sets
    // bit 12 again, so seven bits it stays.
    let seed: u32 = 0x0000_103F;
    assert_eq!(seed.count_ones(), 7);
    assert_eq!(normalise(seed), seed);
}

#[test]
fn normalised_seeds_are_valid_states() {
    let mut value: u32 = 0;
    for _ in 0..2000 {
        let seed = normalise(value);
        assert!(1 <= seed && seed < MODULUS);
        value = value.wrapping_mul(1664525).wrapping_add(1013904223);
    }
    for bit in 0..32 {
        let seed = normalise(1u32 << bit);
        assert!(1 <= seed && seed < MODULUS);
        let seed = normalise(!(1u32 << bit));
        assert!(1 <= seed && seed < MODULUS);
    }
}

#[test]
fn seeding_with_one_normalises_first() {
    let mut generator = rng(1);
    assert_eq!(generator.state(), 0x0A80_1541);
    assert_eq!(generator.next(), 1593009097);
    assert_eq!(generator.next(), 1025266130);
    assert_eq!(generator.next(), 239063382);
    assert_eq!(generator.next(), 2143841384);
}

#[test]
fn first_thirty_two_samples_are_reproducible() {
    let mut first = rng(0xCBF4_3926);
    let mut second = rng(0xCBF4_3926);
    let mut state = normalise(0xCBF4_3926) as u64;
    for _ in 0..32 {
        let sample = first.next();
        assert_eq!(sample, second.next());
        state = state * 16807 % 0x7FFF_FFFF;
        assert_eq!(sample as u64, state);
        assert!(1 <= sample && sample < MODULUS);
    }
}

#[test]
fn folding_the_overflow_agrees_with_the_generator() {
    let mut generator = rng(0x1234_5678);
    for _ in 0..1000 {
        let state = generator.state() as u64;
        let product = state * 16807;
        let mut folded = (product & 0x7FFF_FFFF) + (product >> 31);
        if folded > 0x7FFF_FFFF {
            folded = (folded & 0x7FFF_FFFF) + 1;
        }
        assert_eq!(generator.next() as u64, folded);
    }
}
