use rand::{Rng, SeedableRng};
use rand_chacha::ChaCha8Rng;
use snake_rust::generator::Generator;

#[test]
fn from_seed_starts_at_the_beginning_of_the_stream() {
    let generator = Generator::from_seed(42);
    assert_eq!(generator.seed, 42);
    assert_eq!(generator.position, 0);
}

#[test]
fn gen_range_draws_what_the_chacha_generator_draws() {
    for seed in [0u64, 1, 42, u64::MAX] {
        let mut reference = ChaCha8Rng::seed_from_u64(seed);
        let mut generator = Generator::from_seed(seed);
        for round in 0..200usize {
            let bound = 1 + (round * 7) % 13;
            let expected: usize = reference.gen_range(0..bound);
            assert_eq!(generator.gen_range(bound), expected);
            assert_eq!(generator.position, reference.get_word_pos());
            assert_eq!(generator.seed, seed);
        }
    }
}

#[test]
fn gen_range_stays_below_its_bound() {
    let mut generator = Generator::from_seed(3);
    for _ in 0..100 {
        assert_eq!(generator.gen_range(1), 0);
    }
    for bound in 1..50usize {
        assert!(generator.gen_range(bound) < bound);
    }
    assert!(generator.gen_range(usize::MAX) < usize::MAX);
}

#[test]
fn gen_range_advances_the_generator() {
    let mut generator = Generator::from_seed(0);
    let first = generator.gen_range(1000);
    let after_first = generator;
    let second = generator.gen_range(1000);
    assert!(after_first.position > 0);
    assert!(generator.position > after_first.position);
    let mut again = Generator::from_seed(0);
    assert_eq!(again.gen_range(1000), first);
    assert_eq!(again.gen_range(1000), second);
    assert_eq!(again, generator);
}

#[test]
fn gen_small_draws_what_the_chacha_generator_draws() {
    for seed in [0u64, 42, 7] {
        let mut reference = ChaCha8Rng::seed_from_u64(seed);
        let mut generator = Generator::from_seed(seed);
        for _ in 0..200 {
            let expected: u32 = reference.gen_range(0..4);
            assert_eq!(generator.gen_small(4), expected);
            assert_eq!(generator.position, reference.get_word_pos());
        }
    }
}

#[test]
fn draws_of_both_widths_share_one_stream() {
    let mut reference = ChaCha8Rng::seed_from_u64(5);
    let mut generator = Generator::from_seed(5);
    for round in 0..100u32 {
        if round % 3 == 0 {
            let expected: u32 = reference.gen_range(0..round + 1);
            assert_eq!(generator.gen_small(round + 1), expected);
        } else {
            let expected: usize = reference.gen_range(0..9);
            assert_eq!(generator.gen_range(9), expected);
        }
    }
}
