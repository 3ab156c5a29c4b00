use rhdlc::primitives::{i24, u24, Edge};

#[test]
fn bounds_are_correct() {
    assert!(u24::min_value().eq_u32(0));
    assert!(u24::max_value().eq_u32(16777215));
    assert!(i24::min_value().eq_i32(-8388608));
    assert!(i24::max_value().eq_i32(8388607));
}

#[test]
fn edge_levels() {
    assert!(Edge::Rising.rising());
    assert!(!Edge::Rising.falling());
    assert!(Edge::Falling.falling());
    assert!(Edge::Rising.high());
    assert!(!Edge::Rising.low());
    assert!(Edge::Falling.low());
    assert!(!Edge::Falling.high());
    assert!(Edge::Level(true).high());
    assert!(!Edge::Level(true).rising());
    assert!(Edge::Level(false).low());
    assert!(!Edge::Level(false).falling());
}

#[test]
fn edge_cycle_order() {
    let c = Edge::cycle();
    assert_eq!(
        c,
        vec![Edge::Level(false), Edge::Rising, Edge::Level(true), Edge::Falling]
    );
}

#[test]
fn edge_cycle_repeats_every_four() {
    for n in 0usize..12 {
        assert_eq!(Edge::cycle_nth(n + 4), Edge::cycle_nth(n));
        assert_eq!(Edge::cycle_nth(n).high(), n % 4 == 1 || n % 4 == 2);
    }
    assert_eq!(Edge::cycle_nth(6), Edge::Level(true));
}

#[test]
fn edge_high_xor_low() {
    for e in [Edge::Rising, Edge::Falling, Edge::Level(true), Edge::Level(false)] {
        assert_ne!(e.high(), e.low());
    }
}

#[test]
fn u24_arithmetic() {
    let a = u24::from_u32(7);
    let b = u24::from_u32(3);
    assert!(a.add(b).eq_u32(10));
    assert!(a.sub(b).eq_u32(4));
    assert!(a.mul(b).eq_u32(21));
    assert!(a.div(b).eq_u32(2));
    assert!(a.rem(b).eq_u32(1));
    assert!(a.bitand(b).eq_u32(3));
    assert!(a.bitor(u24::from_u32(8)).eq_u32(15));
    assert!(a.bitxor(b).eq_u32(4));
    assert!(a.shl(b).eq_u32(56));
    assert!(a.shr(u24::one()).eq_u32(3));
    assert!(u24::zero().is_zero());
    assert!(u24::one().is_one());
    assert_eq!(u24::from_u32(u32::MAX).wrapping_add(&u24::from_u32(2)).into_u32(), 1);
}

#[test]
fn i24_arithmetic() {
    let a = i24::from_i32(-7);
    let b = i24::from_i32(3);
    assert!(a.add(b).eq_i32(-4));
    assert!(a.sub(b).eq_i32(-10));
    assert!(a.mul(b).eq_i32(-21));
    assert!(a.neg().eq_i32(7));
    assert!(i24::zero().is_zero());
    assert!(i24::one().is_one());
    assert_eq!(i24::from_i32(i32::MAX).wrapping_add(&i24::one()).into_i32(), i32::MIN);
}

#[test]
fn parsing_in_a_radix() {
    assert_eq!(u24::from_str_radix("27", 10).map(|v| v.into_u32()), Some(27));
    assert_eq!(u24::from_str_radix("+ff", 16).map(|v| v.into_u32()), Some(255));
    assert_eq!(u24::from_str_radix("FF", 16).map(|v| v.into_u32()), Some(255));
    assert!(u24::from_str_radix("foo", 10).is_none());
    assert!(u24::from_str_radix("", 10).is_none());
    assert!(u24::from_str_radix("+", 10).is_none());
    assert!(u24::from_str_radix("-1", 10).is_none());
    assert!(u24::from_str_radix("4294967296", 10).is_none());
    assert!(u24::from_str_radix("12", 2).is_none());
    assert_eq!(i24::from_str_radix("-101", 2).map(|v| v.into_i32()), Some(-5));
    assert_eq!(i24::from_str_radix("-2147483648", 10).map(|v| v.into_i32()), Some(i32::MIN));
    assert!(i24::from_str_radix("2147483648", 10).is_none());
    assert!(i24::from_str_radix("-", 10).is_none());
    assert!(i24::from_str_radix(" 1", 10).is_none());
}
