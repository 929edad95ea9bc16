use core::cmp::Ordering;
use fractions::MyFraction;

#[test]
fn test() {
    assert_eq!(MyFraction::new(10, 2), MyFraction::new(5, 1));
    assert!(MyFraction::new(152541421414141124124124, 152541421414141124124124).eq_int(1));

    assert_eq!(MyFraction::new(10, 2), MyFraction::new(10, 2));
    assert!(MyFraction::new(10, 2).gt(MyFraction::new(10, 3)));
    assert!(MyFraction::new(10, 3).lt(MyFraction::new(10, 2)));

    assert!(MyFraction::new(10, 2).eq_int(5));
    assert_eq!(MyFraction::new(10, 2).cmp_int(4), Ordering::Greater);
    assert_eq!(MyFraction::new(10, 2).cmp_int(6), Ordering::Less);

    assert!(MyFraction::int_eq(5, MyFraction::new(10, 2)));
    assert_eq!(MyFraction::int_cmp(2, MyFraction::new(10, 3)), Ordering::Less);
    assert_eq!(MyFraction::int_cmp(6, MyFraction::new(10, 3)), Ordering::Greater);

    assert_eq!(MyFraction::new(7, 2).as_mixed(), "3(1/2)".to_string());
    assert_eq!(MyFraction::new(6, 2).as_mixed(), "3".to_string());
    assert_eq!(MyFraction::new(1, 6).as_mixed(), "(1/6)".to_string());

    let third = MyFraction::new(1, 3);
    assert_eq!(third.numerator as f64 / third.denominator as f64, 1. / 3.);

    println!("{}", MyFraction::new(21231, 421).as_mixed());
}

#[test]
fn simplify_is_idempotent() {
    let raw = MyFraction { numerator: 84, denominator: -126 };
    let once = raw.simplify();
    let twice = once.simplify();
    assert_eq!(once, twice);
    assert_eq!(once, MyFraction { numerator: -2, denominator: 3 });
}

#[test]
fn construction_normalizes() {
    let f = MyFraction::new(10, 4);
    assert_eq!(f.numerator, 5);
    assert_eq!(f.denominator, 2);
    let g = MyFraction::new(10, -4);
    assert_eq!(g.numerator, -5);
    assert_eq!(g.denominator, 2);
    let h = MyFraction::new(-10, -4);
    assert_eq!(h.numerator, 5);
    assert_eq!(h.denominator, 2);
    let z = MyFraction::new(0, 7);
    assert_eq!(z.numerator, 0);
    assert_eq!(z.denominator, 1);
}

#[test]
fn large_operands_normalize() {
    let big: i128 = 152541421414141124124124;
    let f = MyFraction::new(big, big);
    assert_eq!(f.numerator, 1);
    assert_eq!(f.denominator, 1);
    assert!(f.eq_int(1));
}

#[test]
fn addition_is_exact() {
    let sum = MyFraction::new(1, 2).add(MyFraction::new(1, 3));
    assert_eq!(sum, MyFraction::new(5, 6));
    let same_den = MyFraction::new(1, 4).add(MyFraction::new(1, 4));
    assert_eq!(same_den, MyFraction::new(1, 2));
}

#[test]
fn addition_and_multiplication_commute() {
    let a = MyFraction::new(3, 7);
    let b = MyFraction::new(-5, 4);
    assert_eq!(a.add(b), b.add(a));
    assert_eq!(a.mul(b), b.mul(a));
}

#[test]
fn subtraction_is_exact() {
    let diff = MyFraction::new(1, 2).sub(MyFraction::new(1, 3));
    assert_eq!(diff, MyFraction::new(1, 6));
    let negative = MyFraction::new(1, 3).sub(MyFraction::new(1, 2));
    assert_eq!(negative, MyFraction::new(-1, 6));
}

#[test]
fn multiplication_is_exact() {
    let prod = MyFraction::new(2, 3).mul(MyFraction::new(9, 4));
    assert_eq!(prod, MyFraction::new(3, 2));
}

#[test]
fn division_is_exact() {
    let quot = MyFraction::new(3, 2).div(MyFraction::new(3, 4));
    assert_eq!(quot, MyFraction::new(2, 1));
    assert!(quot.eq_int(2));
}

#[test]
fn division_by_zero_fraction_is_refused() {
    let r = MyFraction::new(3, 2).checked_div(MyFraction::new(0, 5));
    assert!(r.is_none());
    let ok = MyFraction::new(3, 2).checked_div(MyFraction::new(1, 2));
    assert_eq!(ok, Some(MyFraction::new(3, 1)));
}

#[test]
fn compound_assignment_replaces_in_place() {
    let mut f = MyFraction::new(1, 2);
    f.add_assign(MyFraction::new(1, 3));
    assert_eq!(f, MyFraction::new(5, 6));
    f.sub_assign(MyFraction::new(1, 3));
    assert_eq!(f, MyFraction::new(1, 2));
    f.add_assign_int(2);
    assert_eq!(f, MyFraction::new(5, 2));
    f.sub_assign_int(2);
    assert_eq!(f, MyFraction::new(1, 2));
}

#[test]
fn integer_operands() {
    let f = MyFraction::new(3, 2);
    assert_eq!(f.add_int(1), MyFraction::new(5, 2));
    assert_eq!(f.sub_int(1), MyFraction::new(1, 2));
    assert_eq!(MyFraction::int_sub(2, f), MyFraction::new(1, 2));
    assert_eq!(f.mul_int(4), MyFraction::new(6, 1));
    assert_eq!(f.div_int(3), MyFraction::new(1, 2));
    assert_eq!(MyFraction::int_div(3, f), MyFraction::new(2, 1));
    assert_eq!(MyFraction::from_int(-9), MyFraction::new(-9, 1));
}

#[test]
fn ordering_by_cross_multiplication() {
    let a = MyFraction::new(10, 3);
    let b = MyFraction::new(10, 2);
    assert_eq!(a.cmp(b), Ordering::Less);
    assert_eq!(b.cmp(a), Ordering::Greater);
    assert_eq!(a.cmp(a), Ordering::Equal);
    assert!(a.le(b));
    assert!(b.ge(a));
    assert!(MyFraction::new(-1, 2).lt(MyFraction::new(1, 3)));
}

#[test]
fn integer_comparison_both_orders() {
    let f = MyFraction::new(10, 3);
    assert_eq!(f.cmp_int(3), Ordering::Greater);
    assert_eq!(f.cmp_int(4), Ordering::Less);
    assert!(!f.eq_int(3));
    assert!(!MyFraction::int_eq(4, f));
    assert_eq!(MyFraction::int_cmp(3, f), Ordering::Less);
    assert_eq!(MyFraction::int_cmp(4, f), Ordering::Greater);
}

#[test]
fn short_rendering() {
    assert_eq!(MyFraction::new(6, 2).as_string(), "3".to_string());
    assert_eq!(MyFraction::new(10, 4).as_string(), "(5/2)".to_string());
    assert_eq!(MyFraction::new(-10, 4).as_string(), "(-5/2)".to_string());
    assert_eq!(MyFraction::new(0, 5).as_string(), "0".to_string());
}

#[test]
fn mixed_rendering() {
    assert_eq!(MyFraction::new(7, 2).as_mixed(), "3(1/2)".to_string());
    assert_eq!(MyFraction::new(6, 2).as_mixed(), "3".to_string());
    assert_eq!(MyFraction::new(1, 6).as_mixed(), "(1/6)".to_string());
    assert_eq!(MyFraction::new(21231, 421).as_mixed(), "50(181/421)".to_string());
    assert_eq!(MyFraction::new(-7, 2).as_mixed(), "(-7/2)".to_string());
}

#[test]
fn float_conversion_is_close() {
    let f = MyFraction::new(1, 3);
    let approx = f.numerator as f64 / f.denominator as f64;
    assert!((approx - 1.0_f64 / 3.0_f64).abs() < f64::EPSILON);
}
