use nightcrawler::Rng;

#[test]
fn check_rng() {
    let mut rng = Rng::new();
    assert_eq!(rng.rng(), 0x9DED86C3EDFB8A3C);
    assert_eq!(rng.rng(), 0xDA597B86C676E502);
    assert_eq!(rng.rng(), 0x59787F751D2FC37A);
    assert_eq!(rng.rng(), 0x894D2691D613566F);
}

#[test]
fn rng_with_seed_is_deterministic() {
    let mut a = Rng::new_with_seed(42);
    let mut b = Rng::new_with_seed(42);
    for _ in 0..100 {
        assert_eq!(a.rng(), b.rng());
    }
}

#[test]
fn rng_one_step_from_seed_one() {
    // 1 ^ (1 << 3) = 9; 9 ^ (9 >> 5) = 9; 9 ^ (9 << 21) = 0x1200009
    let mut r = Rng::new_with_seed(1);
    assert_eq!(r.rng(), 0x1200009);
    assert_eq!(r.0, 0x1200009);
}

#[test]
fn rng_zero_seed_stays_zero() {
    let mut r = Rng::new_with_seed(0);
    assert_eq!(r.rng(), 0);
    assert_eq!(r.rng(), 0);
}

#[test]
fn rng_nonzero_seed_never_reaches_zero() {
    let mut r = Rng::new_with_seed(0x8000_0000_0000_0000);
    for _ in 0..10000 {
        assert_ne!(r.rng(), 0);
    }
}
