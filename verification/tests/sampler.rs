use pathtracer::{get_index_from_fraction, HaltonBase, HaltonSampler, NumberSequenceSampler};

#[test]
fn halton_base_rejects_zero_and_one() {
    assert!(HaltonBase::new(0).is_err());
    assert!(HaltonBase::new(1).is_err());
    let base = HaltonBase::new(2).unwrap();
    assert_eq!(base.value(), 2);
}

#[test]
fn halton_fractions_base_two_match_the_radical_inverse() {
    let base = HaltonBase::new(2).unwrap();
    assert_eq!(pathtracer::halton_fraction(0, &base), (0, 1));
    assert_eq!(pathtracer::halton_fraction(1, &base), (1, 2));
    assert_eq!(pathtracer::halton_fraction(2, &base), (1, 4));
    assert_eq!(pathtracer::halton_fraction(3, &base), (3, 4));
    assert_eq!(pathtracer::halton_fraction(4, &base), (1, 8));
    assert_eq!(pathtracer::halton_fraction(5, &base), (5, 8));
    assert_eq!(pathtracer::halton_fraction(6, &base), (3, 8));
}

#[test]
fn halton_fractions_base_three_match_the_radical_inverse() {
    let base = HaltonBase::new(3).unwrap();
    assert_eq!(pathtracer::halton_fraction(1, &base), (1, 3));
    assert_eq!(pathtracer::halton_fraction(2, &base), (2, 3));
    assert_eq!(pathtracer::halton_fraction(3, &base), (1, 9));
    assert_eq!(pathtracer::halton_fraction(4, &base), (4, 9));
}

#[test]
fn halton_sampler_advances_through_the_sequence() {
    let bx = HaltonBase::new(2).unwrap();
    let by = HaltonBase::new(3).unwrap();
    let mut sampler = HaltonSampler::new(bx, by);
    assert_eq!(sampler.get_2d_fraction(), ((1, 2), (1, 3)));
    assert_eq!(sampler.get_2d_fraction(), ((1, 4), (2, 3)));
    assert_eq!(sampler.get_fraction(), (3, 4));
}

#[test]
fn number_sequence_sampler_cycles_and_reseeds() {
    let mut sampler = NumberSequenceSampler::new_from_sequence(vec![10u32, 20, 30]);
    assert_eq!(sampler.next_sample(), 20);
    assert_eq!(sampler.next_sample(), 30);
    assert_eq!(sampler.next_sample(), 10);

    sampler.seed_index(4);
    assert_eq!(sampler.next_sample(), 30);

    sampler.reset();
    assert_eq!(sampler.next_sample(), 20);

    let mut copy = sampler.reset_copy();
    assert_eq!(copy.next_sample(), 20);
}

#[test]
fn index_from_fraction_takes_the_floor() {
    assert_eq!(get_index_from_fraction(0, 1, 5), 0);
    assert_eq!(get_index_from_fraction(1, 2, 5), 2);
    assert_eq!(get_index_from_fraction(3, 4, 5), 3);
    assert_eq!(get_index_from_fraction(4, 5, 5), 4);
    assert_eq!(get_index_from_fraction(999, 1000, 5), 4);
}

#[test]
fn halton_fraction_handles_the_largest_base_and_index() {
    let base = HaltonBase::new(u32::MAX).unwrap();
    let b = u32::MAX as u64;
    // the index equals the base: digits are 0 then 1, so the inverse is
    // 1 / base^2
    assert_eq!(pathtracer::halton_fraction(u32::MAX, &base), (1, b * b));
}
