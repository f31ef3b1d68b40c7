use nexusq::FastMod;

#[test]
fn the_mask_is_the_remainder() {
    assert_eq!(13usize.pow_2_mod(8), 5);
    assert_eq!(8usize.pow_2_mod(8), 0);
    assert_eq!(7usize.pow_2_mod(8), 7);
    assert_eq!(0usize.pow_2_mod(1), 0);
    assert_eq!(12345usize.pow_2_mod(1), 0);
    assert_eq!(usize::MAX.pow_2_mod(16), 15);
    assert_eq!(13isize.pow_2_mod(8), 5);
    assert_eq!(isize::MAX.pow_2_mod(4), 3);
    assert_eq!(0isize.pow_2_mod(2), 0);
    for value in 0..200usize {
        for power in 0..8u32 {
            let denominator = 1usize << power;
            assert_eq!(value.pow_2_mod(denominator), value % denominator);
            assert_eq!(
                (value as isize).pow_2_mod(denominator as isize),
                (value % denominator) as isize
            );
        }
    }
}
