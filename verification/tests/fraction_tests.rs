use grid_game::fraction::{
    difference_of, product_of, quotient_of, ranged_difference, ranged_product, ranged_sum, sum_of,
    Fraction,
};

fn frac(num: i128, den: i128) -> Fraction {
    Fraction { num, den }
}

#[test]
fn ranged_arithmetic_stops_at_the_range() {
    assert_eq!(ranged_product(6, -7), Some(-42));
    assert_eq!(ranged_product(i128::MAX, 1), Some(i128::MAX));
    assert_eq!(ranged_product(i128::MAX, -1), Some(-i128::MAX));
    assert_eq!(ranged_product(i128::MAX, 2), None);
    assert_eq!(ranged_product(i128::MIN, 1), None);
    assert_eq!(ranged_product(1 << 64, 1 << 63), None);
    assert_eq!(ranged_product(-(1 << 64), 1 << 63), None);
    assert_eq!(ranged_sum(i128::MAX, 0), Some(i128::MAX));
    assert_eq!(ranged_sum(i128::MAX, 1), None);
    assert_eq!(ranged_sum(-i128::MAX, -1), None);
    assert_eq!(ranged_sum(5, -9), Some(-4));
    assert_eq!(ranged_difference(-i128::MAX, 1), None);
    assert_eq!(ranged_difference(-i128::MAX, 0), Some(-i128::MAX));
    assert_eq!(ranged_difference(5, 9), Some(-4));
}

#[test]
fn new_fraction_keeps_the_denominator_positive() {
    assert_eq!(Fraction::new(3, 4), Some(frac(3, 4)));
    assert_eq!(Fraction::new(3, -4), Some(frac(-3, 4)));
    assert_eq!(Fraction::new(-3, -4), Some(frac(3, 4)));
    assert_eq!(Fraction::new(0, -1), Some(frac(0, 1)));
    assert_eq!(Fraction::new(1, 0), None);
    assert_eq!(Fraction::new(i128::MIN, 1), None);
    assert_eq!(Fraction::new(1, i128::MIN), None);
    assert_eq!(Fraction::from_int(-7), frac(-7, 1));
    assert_eq!(Fraction::from_int(i64::MIN), frac(i64::MIN as i128, 1));
}

#[test]
fn fractions_add_over_the_product_of_the_denominators() {
    assert_eq!(frac(1, 2).plus(frac(1, 3)), Some(frac(5, 6)));
    assert_eq!(frac(1, 2).plus(frac(1, 2)), Some(frac(4, 4)));
    assert_eq!(frac(-1, 2).plus(frac(1, 2)), Some(frac(0, 4)));
    assert_eq!(frac(7, 1).plus(frac(-9, 1)), Some(frac(-2, 1)));
    assert_eq!(frac(i128::MAX, 1).plus(frac(1, 1)), None);
    assert_eq!(frac(1, i128::MAX).plus(frac(1, 2)), None);
}

#[test]
fn fractions_subtract_over_the_product_of_the_denominators() {
    assert_eq!(frac(1, 2).minus(frac(1, 3)), Some(frac(1, 6)));
    assert_eq!(frac(1, 3).minus(frac(1, 2)), Some(frac(-1, 6)));
    assert_eq!(frac(5, 1).minus(frac(5, 1)), Some(frac(0, 1)));
    assert_eq!(frac(-i128::MAX, 1).minus(frac(1, 1)), None);
}

#[test]
fn fractions_multiply_numerators_and_denominators() {
    assert_eq!(frac(2, 3).times(frac(-5, 7)), Some(frac(-10, 21)));
    assert_eq!(frac(0, 3).times(frac(5, 7)), Some(frac(0, 21)));
    assert_eq!(frac(1 << 100, 1).times(frac(1 << 27, 1)), None);
    assert_eq!(frac(1 << 100, 1).times(frac(1 << 26, 1)), Some(frac(1 << 126, 1)));
    assert_eq!(frac(1, 1 << 64).times(frac(1, 1 << 63)), None);
}

#[test]
fn fractions_divide_with_the_sign_on_top() {
    assert_eq!(frac(2, 3).over(frac(5, 7)), Some(frac(14, 15)));
    assert_eq!(frac(2, 3).over(frac(-5, 7)), Some(frac(-14, 15)));
    assert_eq!(frac(-2, 3).over(frac(-5, 7)), Some(frac(14, 15)));
    assert_eq!(frac(0, 3).over(frac(-5, 7)), Some(frac(0, 15)));
    assert_eq!(frac(2, 3).over(frac(0, 7)), None);
    assert_eq!(frac(1 << 100, 1).over(frac(1, 1 << 27)), None);
}

#[test]
fn fraction_signs_and_magnitudes() {
    assert!(frac(0, 5).is_zero());
    assert!(!frac(1, 5).is_zero());
    assert!(frac(-1, 5).is_negative());
    assert!(!frac(0, 5).is_negative());
    assert!(!frac(1, 5).is_negative());
    assert_eq!(frac(-3, 4).negated(), frac(3, 4));
    assert_eq!(frac(3, 4).negated(), frac(-3, 4));
    assert_eq!(frac(-3, 4).magnitude(), frac(3, 4));
    assert_eq!(frac(3, 4).magnitude(), frac(3, 4));
    assert_eq!(frac(-i128::MAX, 1).magnitude(), frac(i128::MAX, 1));
}

#[test]
fn fractions_compare_by_cross_products() {
    assert_eq!(frac(1, 2).exceeds(frac(1, 3)), Some(true));
    assert_eq!(frac(1, 3).exceeds(frac(1, 2)), Some(false));
    assert_eq!(frac(2, 4).exceeds(frac(1, 2)), Some(false));
    assert_eq!(frac(-1, 3).exceeds(frac(-1, 2)), Some(true));
    assert_eq!(frac(i128::MAX, 1).exceeds(frac(1, 2)), None);
}

#[test]
fn missing_operands_give_missing_results() {
    let a = Some(frac(1, 2));
    let b = Some(frac(1, 3));
    assert_eq!(sum_of(a, b), Some(frac(5, 6)));
    assert_eq!(difference_of(a, b), Some(frac(1, 6)));
    assert_eq!(product_of(a, b), Some(frac(1, 6)));
    assert_eq!(quotient_of(a, b), Some(frac(3, 2)));
    assert_eq!(sum_of(None, b), None);
    assert_eq!(sum_of(a, None), None);
    assert_eq!(difference_of(None, b), None);
    assert_eq!(product_of(a, None), None);
    assert_eq!(quotient_of(None, None), None);
    assert_eq!(quotient_of(a, Some(frac(0, 1))), None);
}
