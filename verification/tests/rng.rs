use video_lab::rng::{Draw, Lcg};

#[test]
fn the_generator_is_the_documented_one() {
    let mut rng = Lcg::with_seed(7);
    let mut state = 7u32;
    for _ in 0..100 {
        state = state.wrapping_mul(1_664_525).wrapping_add(1_013_904_223);
        assert_eq!(rng.next(), state >> 8);
    }
    assert_eq!(Lcg::with_seed(0).next(), 1_013_904_223 >> 8);
}

#[test]
fn a_zero_seed_counts_as_one() {
    assert_eq!(Lcg::new(0), Lcg::new(1));
    assert_eq!(Lcg::new(9), Lcg::with_seed(9));
    assert_ne!(Lcg::with_seed(0), Lcg::with_seed(1));
}

#[test]
fn a_spare_value_comes_before_a_new_pair() {
    let mut rng = Lcg::new(3);
    let mut twin = Lcg::new(3);
    let first = rng.draw();
    assert_eq!(first, Draw::Pair(twin.next(), twin.next()));
    rng.keep(0x3f80_0000);
    assert_eq!(rng.draw(), Draw::Spare(0x3f80_0000));
    assert_eq!(rng.draw(), Draw::Pair(twin.next(), twin.next()));
}

#[test]
fn normal_values_come_in_pairs() {
    // Stands for the transform: the draws themselves, the second one marked.
    let form = |u: u32, v: u32| (u, v + 1_000_000_000);
    let mut rng = Lcg::new(3);
    let mut twin = Lcg::new(3);
    assert_eq!(rng.normal(&form), twin.next());
    assert_eq!(rng.normal(&form), twin.next() + 1_000_000_000);
    assert_eq!(rng, twin);
    let values = rng.vec(5, &form);
    let wanted: Vec<u32> = (0..6).map(|i| twin.next() + if i % 2 == 0 { 0 } else { 1_000_000_000 }).collect();
    assert_eq!(values, wanted[..5]);
    assert_eq!(rng.spare, Some(wanted[5]));
    assert!(rng.vec(0, &form).is_empty());
    assert_eq!(rng.normal(&form), wanted[5]);
    assert_eq!(rng, twin);
}

#[test]
fn values_drawn_in_two_parts_are_those_drawn_in_one() {
    let form = |u: u32, v: u32| (u ^ v, u.wrapping_add(v));
    for cut in 0..9 {
        let mut whole = Lcg::new(8);
        let mut parts = Lcg::new(8);
        let mut both = parts.vec(cut, &form);
        both.extend(parts.vec(8 - cut.min(8), &form));
        assert_eq!(whole.vec(8, &form), both[..8]);
        assert_eq!(whole, parts);
    }
}
