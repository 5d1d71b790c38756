use bingo_amida::rng::{IRng, MersenneTwister, XorShift, DEFAULT_SEED};

#[test]
fn test_mersenne_twister_correctness() {
    let mut rng = MersenneTwister::new(5489);

    assert_eq!(rng.next(), 3499211612);
    assert_eq!(rng.next(), 581869302);
    assert_eq!(rng.next(), 3890346734);
    assert_eq!(rng.next(), 3586334585);
    assert_eq!(rng.next(), 545404204);
}

#[test]
fn mersenne_twister_crosses_twist_boundary() {
    let mut a = MersenneTwister::new(5489);
    let mut first = Vec::new();
    for _ in 0..1300 {
        first.push(a.next());
    }
    let mut b = MersenneTwister::new(5489);
    for k in 0..1300 {
        assert_eq!(b.next(), first[k]);
    }
}

#[test]
fn xorshift_reference_values() {
    let mut rng = XorShift::new(123);
    assert_eq!(rng.next(), 31682556);
    assert_eq!(rng.next(), 4018661298);
    assert_eq!(rng.next(), 2101636938);
}

#[test]
fn xorshift_zero_seed_uses_default() {
    let mut zero = XorShift::new(0);
    let mut default = XorShift::new(DEFAULT_SEED);
    assert_eq!(zero.next(), 2957820084);
    assert_eq!(default.next(), 2957820084);
    for _ in 0..1000 {
        let z = zero.next();
        assert_ne!(z, 0);
        assert_eq!(z, default.next());
    }
}

#[test]
fn mersenne_twister_zero_seed_uses_default() {
    let mut zero = MersenneTwister::new(0);
    let mut default = MersenneTwister::new(DEFAULT_SEED);
    let mut any_nonzero = false;
    for _ in 0..700 {
        let z = zero.next();
        any_nonzero |= z != 0;
        assert_eq!(z, default.next());
    }
    assert!(any_nonzero);
}

#[test]
fn shift_matches_later_outputs() {
    let mut fresh = MersenneTwister::new(2024);
    let fresh_outputs: Vec<u32> = (0..800).map(|_| fresh.next()).collect();
    let mut shifted = MersenneTwister::new(2024);
    shifted.shift(700);
    for k in 0..100 {
        assert_eq!(shifted.next(), fresh_outputs[700 + k]);
    }

    let mut xs_fresh = XorShift::new(5);
    let xs_outputs: Vec<u32> = (0..20).map(|_| xs_fresh.next()).collect();
    let mut xs_shifted = XorShift::new(5);
    xs_shifted.shift(7);
    assert_eq!(xs_shifted.next(), xs_outputs[7]);
    xs_shifted.shift(0);
    assert_eq!(xs_shifted.next(), xs_outputs[8]);
}

#[test]
fn reset_rewinds_generators() {
    let mut mt = MersenneTwister::new(99);
    let first = mt.next();
    mt.shift(1000);
    mt.reset();
    assert_eq!(mt.next(), first);

    let mut xs = XorShift::new(99);
    let first = xs.next();
    xs.shift(10);
    xs.reset();
    assert_eq!(xs.next(), first);
}

fn sorted(v: &[u8]) -> Vec<u8> {
    let mut s = v.to_vec();
    s.sort();
    s
}

#[test]
fn shuffle_keeps_multiset() {
    let mut rng = XorShift::new(31);
    let original: Vec<u8> = vec![5, 5, 1, 9, 9, 9, 0, 200, 3];
    let mut v = original.clone();
    rng.shuffle(&mut v);
    assert_eq!(sorted(&v), sorted(&original));

    let mut mt = MersenneTwister::new(31);
    let mut w: Vec<u8> = (0..=255).collect();
    mt.shuffle(&mut w);
    assert_eq!(sorted(&w), (0..=255).collect::<Vec<u8>>());
}

#[test]
fn shuffle_short_sequences_are_unchanged() {
    let mut rng = XorShift::new(8);
    let mut empty: Vec<u8> = Vec::new();
    rng.shuffle(&mut empty);
    assert!(empty.is_empty());
    let mut one = vec![42u8];
    rng.shuffle(&mut one);
    assert_eq!(one, vec![42]);
    // no draws were made by either call
    let mut fresh = XorShift::new(8);
    assert_eq!(rng.next(), fresh.next());
}

#[test]
fn shuffle_consumes_len_minus_one_draws() {
    let mut rng = MersenneTwister::new(3);
    let mut v: Vec<u8> = (1..=10).collect();
    rng.shuffle(&mut v);
    let mut fresh = MersenneTwister::new(3);
    fresh.shift(9);
    assert_eq!(rng.next(), fresh.next());
}
