use ss_analysis::scale::{scale_tuple, Scale};

#[test]
fn scale_needs_a_denominator() {
    assert!(Scale::new(1, 0).is_none());
    assert!(Scale::new(0, 0).is_none());
    assert!(Scale::new(0, 1).is_some());
    assert!(Scale::new(u32::MAX, u32::MAX).is_some());
}

#[test]
fn ticks_are_scaled_and_rounded_down() {
    let third = Scale::new(1, 3).unwrap();
    assert_eq!(third.scale_ticks(0), 0);
    assert_eq!(third.scale_ticks(2), 0);
    assert_eq!(third.scale_ticks(3), 1);
    assert_eq!(third.scale_ticks(10), 3);
    let seven_fifths = Scale::new(7, 5).unwrap();
    assert_eq!(seven_fifths.scale_ticks(9), 12);
    assert_eq!(seven_fifths.scale_ticks(10), 14);
    assert_eq!(seven_fifths.scale_ticks(1_000_000_000_000_000_000_003), 1_400_000_000_000_000_000_004);
}

#[test]
fn large_ticks_are_scaled_without_loss() {
    let factor = Scale::new(u32::MAX, u32::MAX - 1).unwrap();
    let ticks: u128 = (u32::MAX as u128 - 1) * 1_000_000_000_000_000_000_000;
    assert_eq!(factor.scale_ticks(ticks), u32::MAX as u128 * 1_000_000_000_000_000_000_000);
    let half = Scale::new(1, 2).unwrap();
    assert_eq!(half.scale_ticks(u128::MAX), u128::MAX / 2);
}

#[test]
fn ticks_are_held_at_the_largest_number() {
    let double = Scale::new(2, 1).unwrap();
    assert_eq!(double.scale_ticks(u128::MAX), u128::MAX);
    assert_eq!(double.scale_ticks(u128::MAX / 2), u128::MAX - 1);
    assert_eq!(double.scale_ticks(u128::MAX / 2 + 1), u128::MAX);
    let bit_more = Scale::new(u32::MAX, u32::MAX - 1).unwrap();
    assert_eq!(bit_more.scale_ticks(u128::MAX), u128::MAX);
}

#[test]
fn coordinates_are_scaled_and_held_at_the_largest() {
    let half = Scale::new(1, 2).unwrap();
    assert_eq!(half.scale_coord(7), 3);
    assert_eq!(half.scale_coord(u32::MAX), u32::MAX / 2);
    let triple = Scale::new(3, 1).unwrap();
    assert_eq!(triple.scale_coord(5), 15);
    assert_eq!(triple.scale_coord(u32::MAX / 2), u32::MAX);
}

#[test]
fn tuple_is_scaled_number_by_number() {
    let factor = Scale::new(3, 4).unwrap();
    assert_eq!(scale_tuple((10, 21), factor), (7, 15));
    assert_eq!(scale_tuple((0, 1), factor), (0, 0));
    assert_eq!(scale_tuple((u32::MAX, 4), Scale::new(2, 1).unwrap()), (u32::MAX, 8));
}

#[test]
fn factors_multiply_without_rounding() {
    let half = Scale::new(1, 2).unwrap();
    let double = Scale::new(2, 1).unwrap();
    let back = half.times(double).unwrap();
    assert_eq!(back, Scale::new(2, 2).unwrap());
    assert_eq!(back.scale_ticks(3), 3);
    assert_eq!(double.scale_ticks(half.scale_ticks(3)), 2);
    let sixth = half.times(Scale::new(1, 3).unwrap()).unwrap();
    assert_eq!(sixth, Scale::new(1, 6).unwrap());
    assert_eq!(Scale::one().times(half), Some(half));
}

#[test]
fn product_that_cannot_be_held_is_none() {
    let large = Scale::new(u32::MAX, 1).unwrap();
    let square = large.times(large).unwrap();
    assert_eq!(square.scale_ticks(1), u32::MAX as u128 * u32::MAX as u128);
    assert!(square.times(Scale::new(2, 1).unwrap()).is_none());
    assert!(square.times(Scale::new(1, 7).unwrap()).is_some());
    let small = Scale::new(1, u32::MAX).unwrap();
    let tiny = small.times(small).unwrap();
    assert!(tiny.times(Scale::new(1, 2).unwrap()).is_none());
    assert!(tiny.times(Scale::new(0, 1).unwrap()).is_some());
}

#[test]
fn times_as_coordinates() {
    let half = Scale::new(1, 2).unwrap();
    assert_eq!(half.coord(7), 3);
    assert_eq!(half.coord(u128::MAX), u32::MAX);
    assert_eq!(half.coord(2 * u32::MAX as u128 + 1), u32::MAX);
    assert_eq!(half.coord(2 * u32::MAX as u128 - 1), u32::MAX - 1);
    assert_eq!(half.coord_of_end(3, 4), 3);
    assert_eq!(half.coord_of_end(3, 3), 3);
    assert_eq!(half.coord_of_end(u128::MAX, 1), u32::MAX);
    assert_eq!(Scale::new(0, 9).unwrap().coord_of_end(u128::MAX, u128::MAX), 0);
}
