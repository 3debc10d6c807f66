use layout::constraints::Constraints;
use layout::geom::{Align, Axes, Fraction, Linear, Point, Size};
use layout::num::{len_add, len_half, len_max, len_min, len_sub, fr_part, INF};

#[test]
fn linear_resolves_absolute_and_relative() {
    // 10 units plus 25% of the base.
    let l = Linear::new(10, 250);
    assert_eq!(l.resolve(200), 10 + 50);
    assert_eq!(l.resolve(0), 10);
    // An unbounded base contributes nothing through the relative part.
    assert_eq!(l.resolve(INF), 10);
}

#[test]
fn linear_zero_resolves_to_zero() {
    assert_eq!(Linear::zero().resolve(12345), 0);
    assert_eq!(Linear::from_abs(7).resolve(999), 7);
}

#[test]
fn saturating_length_arithmetic() {
    assert_eq!(len_add(3, 4), 7);
    assert_eq!(len_sub(3, 4), -1);
    assert_eq!(len_add(INF, -5), INF);
    assert_eq!(len_sub(INF, 1000), INF);
    assert_eq!(len_add(i64::MAX - 1, 10), INF);
    assert_eq!(len_min(INF, 4), 4);
    assert_eq!(len_max(-2, 0), 0);
    assert_eq!(len_half(10), 5);
    assert_eq!(len_half(-10), 0);
}

#[test]
fn fraction_shares() {
    // Two of five parts of 100 units.
    assert_eq!(fr_part(2, 5, 100), 40);
    // Degenerate inputs yield nothing.
    assert_eq!(fr_part(2, 0, 100), 0);
    assert_eq!(fr_part(2, 5, -3), 0);
    assert_eq!(fr_part(2, 5, INF), 0);
    assert_eq!(Fraction::new(3).weight(), 3);
}

#[test]
fn alignment_resolution() {
    assert_eq!(Align::Start.resolve(80), 0);
    assert_eq!(Align::Center.resolve(80), 40);
    assert_eq!(Align::End.resolve(80), 80);
    // Negative leftover gives no displacement.
    assert_eq!(Align::End.resolve(-10), 0);
    assert_eq!(Align::Start.join(Align::Center), Align::Center);
    assert_eq!(Align::End.join(Align::Center), Align::End);
}

#[test]
fn point_offset_adds_per_axis() {
    let p = Point::new(3, 4).offset(Point::new(10, 20));
    assert_eq!(p, Point::new(13, 24));
}

#[test]
fn constraints_check_reuse_rule() {
    let expand = Axes::new(false, false);
    let mut cts = Constraints::new(expand);
    cts.exact.x = Some(200);
    cts.min.y = Some(50);
    // Exact axes must match exactly, minimum axes need at least the value.
    assert!(cts.check(Size::new(200, 50), Size::new(0, 0), expand));
    assert!(cts.check(Size::new(200, 80), Size::new(0, 0), expand));
    assert!(!cts.check(Size::new(150, 80), Size::new(0, 0), expand));
    assert!(!cts.check(Size::new(200, 40), Size::new(0, 0), expand));
    // Differing expansion flags forbid reuse.
    assert!(!cts.check(Size::new(200, 50), Size::new(0, 0), Axes::new(true, false)));

    let mut with_max = Constraints::new(expand);
    with_max.max.y = Some(100);
    assert!(with_max.check(Size::new(0, 100), Size::new(0, 0), expand));
    assert!(!with_max.check(Size::new(0, 101), Size::new(0, 0), expand));

    let mut with_base = Constraints::new(expand);
    with_base.base.x = Some(300);
    assert!(with_base.check(Size::new(0, 0), Size::new(300, 0), expand));
    assert!(!with_base.check(Size::new(0, 0), Size::new(299, 0), expand));
}
