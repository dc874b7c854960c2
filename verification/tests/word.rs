use solar_sema::word::Word;

#[test]
fn words_compare_by_value() {
    let small = Word::from_u64(7);
    let large = Word { limb0: 0, limb1: 0, limb2: 0, limb3: 1 };
    assert!(small.less_than(large));
    assert!(!large.less_than(small));
    assert_eq!(small.max(large), large);
    assert!(Word::zero().is_zero());
    assert!(!large.fits_u64());
    assert_eq!(small.to_u64(), 7);
}
