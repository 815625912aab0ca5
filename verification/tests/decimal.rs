use polyester_examples::decimal::Dec;

#[test]
fn decimal_text_places_the_point() {
    assert_eq!(Dec::new(12345, 2).to_text(), "123.45");
    assert_eq!(Dec::new(-5, 3).to_text(), "-0.005");
    assert_eq!(Dec::new(0, 2).to_text(), "0.00");
    assert_eq!(Dec::new(0, 0).to_text(), "0");
    assert_eq!(Dec::from_i64(-42).to_text(), "-42");
}

#[test]
fn decimal_normalize_strips_zeros() {
    assert_eq!(Dec::new(1500, 3).normalize().to_text(), "1.5");
    assert_eq!(Dec::new(-1000, 3).normalize().to_text(), "-1");
    let z = Dec { negative: true, mantissa: 0, scale: 4 }.normalize();
    assert_eq!(z, Dec::zero());
}

#[test]
fn decimal_trunc_and_ceil() {
    assert_eq!(Dec::new(3141, 3).trunc().to_text(), "3");
    assert_eq!(Dec::new(-198765, 5).trunc().to_text(), "-1");
    assert_eq!(Dec::new(3141, 3).ceil().to_text(), "4");
    assert_eq!(Dec::new(3, 0).ceil().to_text(), "3");
    assert_eq!(Dec::new(-37, 1).ceil().to_text(), "-3");
}

#[test]
fn decimal_to_i64_truncates_and_checks_range() {
    assert_eq!(Dec::new(-1999, 3).to_i64(), Some(-1));
    assert_eq!(Dec::from_i64(i64::MIN).to_i64(), Some(i64::MIN));
    assert_eq!(Dec::from_u64(u64::MAX).to_i64(), None);
}

#[test]
fn decimal_order_and_arithmetic() {
    let a = Dec::new(15, 1);
    let b = Dec::new(150, 2);
    assert!(a.value_eq(&b));
    assert!(!a.lt(&b));
    assert!(Dec::new(-1, 0).lt(&Dec::zero()));
    assert_eq!(a.max(&Dec::from_i64(2)).to_text(), "2");
    assert_eq!(a.min(&Dec::from_i64(2)).to_text(), "1.5");
    assert_eq!(a.checked_add(&b).unwrap().normalize().to_text(), "3");
    assert_eq!(a.checked_sub(&Dec::from_i64(2)).unwrap().normalize().to_text(), "-0.5");
    assert_eq!(a.checked_mul(&b).unwrap().normalize().to_text(), "2.25");
    assert_eq!(Dec::from_i64(1).checked_div(&Dec::from_i64(4)).unwrap().to_text(), "0.25");
    assert!(a.checked_div(&Dec::zero()).is_none());
    assert_eq!(Dec::parse("12.50").unwrap().to_text(), "12.50");
    assert!(Dec::parse("abc").is_none());
}
