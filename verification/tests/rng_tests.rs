use minesweeper::rng::{regen_random, RandomSource};

#[test]
fn middle_square_step_exact_value() {
    // Hold the implementation to the documented formula, computed here
    // independently in wider arithmetic.
    let s: u32 = 0x12345678;
    let expected = ((((s as u128) * (s as u128)) / 100_000) % 10_000_000_000) as u64 as u32;
    let mut r: u32 = s;
    regen_random(&mut r);
    assert_eq!(r, expected);
}

#[test]
fn zero_seed_stays_zero() {
    let mut r: u32 = 0;
    regen_random(&mut r);
    assert_eq!(r, 0);
    regen_random(&mut r);
    assert_eq!(r, 0);
}

#[test]
fn small_seed_collapses_to_zero() {
    // A seed below sqrt(100000) squares to less than the divisor.
    let mut r: u32 = 300;
    regen_random(&mut r);
    assert_eq!(r, 0);
}

#[test]
fn deterministic_sequences_match() {
    let mut a = RandomSource::new(987_654_321);
    let mut b = RandomSource::new(987_654_321);
    for _ in 0..100 {
        assert_eq!(a.next(), b.next());
    }
}

#[test]
fn source_next_matches_free_function() {
    let mut src = RandomSource::new(0xDEADBEEF);
    let mut raw: u32 = 0xDEADBEEF;
    for _ in 0..10 {
        regen_random(&mut raw);
        assert_eq!(src.next(), raw);
    }
}
