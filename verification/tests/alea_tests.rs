//! The Alea generator against its known fixtures.
use fsrs::{alea, AleaState, Fp, Seed};
use rand::RngExt;

/// The exact double value a mantissa/exponent pair denotes.
fn fp_val(f: Fp) -> f64 {
    (f.m as f64) * (2.0f64).powi(f.e as i32)
}

/// The mantissa/exponent pair of a positive normal double (or zero).
fn fp_of(x: f64) -> Fp {
    if x == 0.0 {
        return Fp { m: 0, e: 0 };
    }
    let bits = x.to_bits();
    let m = (bits & ((1u64 << 52) - 1)) | (1u64 << 52);
    let e = ((bits >> 52) & 0x7FF) as i64 - 1023 - 52;
    Fp { m, e }
}

fn seed_of(s: &str) -> Seed {
    Seed::new(s.to_string())
}

#[test]
fn test_prng_get_state() {
    let prng_1 = alea(seed_of("1"));
    let prng_2 = alea(seed_of("2"));
    let prng_3 = alea(seed_of("1"));

    let alea_state_1 = prng_1.get_state();
    let alea_state_2 = prng_2.get_state();
    let alea_state_3 = prng_3.get_state();

    assert_eq!(alea_state_1, alea_state_3);
    assert_ne!(alea_state_1, alea_state_2);
}

#[test]
fn test_alea_get_next() {
    let seed = seed_of("12345");
    let mut generator = alea(seed);
    assert_eq!(fp_val(generator.get_next()), 0.27138191112317145);
    assert_eq!(fp_val(generator.get_next()), 0.19615925149992108);
    assert_eq!(fp_val(generator.get_next()), 0.6810678059700876);
}

#[test]
fn test_alea_int32() {
    let seed = seed_of("12345");
    let mut generator = alea(seed);
    assert_eq!(generator.int32(), 1165576433);
    assert_eq!(generator.int32(), 842497570);
    assert_eq!(generator.int32(), -1369803343);
}

#[test]
fn test_alea_double() {
    let seed = seed_of("12345");
    let mut generator = alea(seed);
    assert_eq!(fp_val(generator.double()), 0.1961592515631071);
    assert_eq!(fp_val(generator.double()), 0.9894359015582752);
}

#[test]
fn test_alea_import_state() {
    let mut rng = rand::rng();
    let mut prng_1 = alea(Seed::new(rng.random::<i32>().to_string()));
    prng_1.get_next();
    prng_1.get_next();
    prng_1.get_next();
    let prng_1_state = prng_1.get_state();
    let prng_2 = alea(seed_of("x")).import_state(prng_1_state);
    let mut prng_2 = prng_2;

    assert_eq!(prng_1.get_state(), prng_2.get_state());

    for _ in 1..10000 {
        let a = fp_val(prng_1.get_next());
        let b = fp_val(prng_2.get_next());

        assert_eq!(a, b);
        assert!(a >= 0.0 && a < 1.0);
        assert!(b >= 0.0 && b < 1.0);
    }
}

#[test]
fn test_seed_example_1() {
    let seed = seed_of("1727015666066");
    let mut generator = alea(seed);
    let results = generator.get_next();
    let state = generator.get_state();

    let expect_alea_state = AleaState {
        c: 1828249,
        s0: fp_of(0.5888567129150033),
        s1: fp_of(0.5074866858776659),
        s2: fp_of(0.6320083506871015),
    };
    assert_eq!(fp_val(results), 0.6320083506871015);
    assert_eq!(state, expect_alea_state);
}

#[test]
fn test_seed_example_2() {
    let seed = seed_of("Seedp5fxh9kf4r0");
    let mut generator = alea(seed);
    let results = generator.get_next();
    let state = generator.get_state();

    let expect_alea_state = AleaState {
        c: 1776946,
        s0: fp_of(0.6778371171094477),
        s1: fp_of(0.0770602801349014),
        s2: fp_of(0.14867847645655274),
    };
    assert_eq!(fp_val(results), 0.14867847645655274);
    assert_eq!(state, expect_alea_state);
}

#[test]
fn test_seed_example_3() {
    let seed = seed_of("NegativeS2Seed");
    let mut generator = alea(seed);
    let results = generator.get_next();
    let state = generator.get_state();

    let expect_alea_state = AleaState {
        c: 952982,
        s0: fp_of(0.25224833423271775),
        s1: fp_of(0.9213257452938706),
        s2: fp_of(0.830770346801728),
    };
    assert_eq!(fp_val(results), 0.830770346801728);
    assert_eq!(state, expect_alea_state);
}

#[test]
fn test_seed_from_time_is_nonempty() {
    let seed = Seed::new(String::new());
    assert!(!seed.inner_str().is_empty());
    assert!(seed.inner_str().chars().all(|c| c.is_ascii_digit()));
}

#[test]
fn test_seed_inner_str() {
    let seed = Seed::new("abc".to_string());
    assert_eq!(seed.inner_str(), "abc");
}

#[test]
fn test_alea_resume_matches_original_draws() {
    // exporting, drawing, then importing replays the identical sequence
    let mut original = alea(seed_of("resume"));
    original.get_next();
    let snapshot = original.get_state();
    let mut replay = alea(seed_of("other")).import_state(snapshot);
    let first: Vec<i32> = (0..100).map(|_| original.int32()).collect();
    let second: Vec<i32> = (0..100).map(|_| replay.int32()).collect();
    assert_eq!(first, second);
}
