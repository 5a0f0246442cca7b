use jay::fixed::{floor_div_256, Fixed};
use jay::rect::{sat_add, sat_sub, Rect, Region};
use jay::transform::Transform;

#[test]
fn rect_new_orders_corners() {
    assert_eq!(Rect::new(1, 2, 3, 4), Some(Rect { x1: 1, y1: 2, x2: 3, y2: 4 }));
    assert_eq!(Rect::new(3, 2, 1, 4), None);
    assert_eq!(Rect::new(1, 4, 3, 2), None);
    assert_eq!(Rect::new(1, 1, 1, 1), Some(Rect { x1: 1, y1: 1, x2: 1, y2: 1 }));
}

#[test]
fn rect_new_sized_rejects_negative_sizes() {
    assert_eq!(Rect::new_sized(5, 6, 10, 20), Some(Rect { x1: 5, y1: 6, x2: 15, y2: 26 }));
    assert_eq!(Rect::new_sized(5, 6, -1, 20), None);
    assert_eq!(Rect::new_sized(5, 6, 10, -1), None);
    assert_eq!(Rect::new_sized(5, 6, 0, 0), Some(Rect { x1: 5, y1: 6, x2: 5, y2: 6 }));
}

#[test]
fn rect_new_sized_saturates_at_the_far_corner() {
    let r = Rect::new_sized(i32::MAX - 5, 0, 10, 1).unwrap();
    assert_eq!(r.x2(), i32::MAX);
    assert_eq!(r.width(), 5);
}

#[test]
fn rect_size_and_position() {
    let r = Rect::new(-3, 4, 7, 10).unwrap();
    assert_eq!(r.width(), 10);
    assert_eq!(r.height(), 6);
    assert_eq!(r.size(), (10, 6));
    assert_eq!(r.position(), (-3, 4));
    assert_eq!((r.x1(), r.y1(), r.x2(), r.y2()), (-3, 4, 7, 10));
}

#[test]
fn rect_width_saturates() {
    let r = Rect::new(i32::MIN, 0, i32::MAX, 1).unwrap();
    assert_eq!(r.width(), i32::MAX);
}

#[test]
fn rect_is_empty_when_one_side_is() {
    assert!(Rect::new_empty(3, 4).is_empty());
    assert!(Rect::new(0, 0, 0, 5).unwrap().is_empty());
    assert!(Rect::new(0, 0, 5, 0).unwrap().is_empty());
    assert!(!Rect::new(0, 0, 1, 1).unwrap().is_empty());
}

#[test]
fn rect_contains_is_half_open() {
    let r = Rect::new(0, 0, 10, 10).unwrap();
    assert!(r.contains(0, 0));
    assert!(r.contains(9, 9));
    assert!(!r.contains(10, 9));
    assert!(!r.contains(9, 10));
    assert!(!r.contains(-1, 0));
}

#[test]
fn rect_union_is_the_bounding_box() {
    let a = Rect::new(0, 0, 10, 10).unwrap();
    let b = Rect::new(5, -5, 20, 3).unwrap();
    assert_eq!(a.union(b), Rect { x1: 0, y1: -5, x2: 20, y2: 10 });
    assert_eq!(b.union(a), a.union(b));
}

#[test]
fn rect_intersect_and_intersects() {
    let a = Rect::new(0, 0, 10, 10).unwrap();
    let b = Rect::new(5, 5, 20, 20).unwrap();
    let c = Rect::new(10, 0, 20, 10).unwrap();
    assert!(a.intersects(&b));
    assert!(!a.intersects(&c));
    assert_eq!(a.intersect(b), Rect { x1: 5, y1: 5, x2: 10, y2: 10 });
    assert!(a.intersect(c).is_empty());
}

#[test]
fn rect_move_and_at_point() {
    let a = Rect::new(1, 2, 4, 6).unwrap();
    assert_eq!(a.move_(10, -2), Rect { x1: 11, y1: 0, x2: 14, y2: 4 });
    assert_eq!(a.at_point(0, 0), Rect { x1: 0, y1: 0, x2: 3, y2: 4 });
    assert_eq!(a.to_origin(), Rect { x1: 0, y1: 0, x2: 3, y2: 4 });
    assert_eq!(a.with_size(7, 8), Some(Rect { x1: 1, y1: 2, x2: 8, y2: 10 }));
    assert_eq!(a.with_size(-7, 8), None);
}

#[test]
fn rect_move_saturates() {
    let a = Rect::new(0, 0, 10, 10).unwrap();
    let m = a.move_(i32::MAX, 0);
    assert_eq!(m, Rect { x1: i32::MAX, y1: 0, x2: i32::MAX, y2: 10 });
}

#[test]
fn rect_translate_goes_both_ways() {
    let a = Rect::new(10, 20, 30, 40).unwrap();
    assert_eq!(a.translate(15, 25), (5, 5));
    assert_eq!(a.translate_inv(5, 5), (15, 25));
}

#[test]
fn saturating_arithmetic() {
    assert_eq!(sat_add(1, 2), 3);
    assert_eq!(sat_add(i32::MAX, 1), i32::MAX);
    assert_eq!(sat_add(i32::MIN, -1), i32::MIN);
    assert_eq!(sat_sub(1, 2), -1);
    assert_eq!(sat_sub(i32::MIN, 1), i32::MIN);
    assert_eq!(sat_sub(i32::MAX, -1), i32::MAX);
}

#[test]
fn rect_default_is_empty_at_origin() {
    assert_eq!(Rect::default(), Rect { x1: 0, y1: 0, x2: 0, y2: 0 });
}

#[test]
fn region_contains_points_of_any_rect() {
    let a = Rect::new(0, 0, 10, 10).unwrap();
    let b = Rect::new(20, 20, 30, 30).unwrap();
    let region = Region::from_rects(vec![a, b]);
    assert!(region.contains(5, 5));
    assert!(region.contains(25, 25));
    assert!(!region.contains(15, 15));
    assert!(!Region::empty().contains(0, 0));
    assert!(Region::new(a).contains(9, 9));
    assert!(!Region::new(a).contains(10, 10));
}

#[test]
fn region_union_covers_both() {
    let a = Region::new(Rect::new(0, 0, 10, 10).unwrap());
    let b = Region::new(Rect::new(20, 20, 30, 30).unwrap());
    let u = a.union(&b);
    assert_eq!(u.rects.len(), 2);
    assert!(u.contains(1, 1));
    assert!(u.contains(21, 21));
    assert!(!u.contains(11, 11));
}

#[test]
fn region_extents_skip_empty_rects() {
    let region = Region::from_rects(vec![
        Rect::new_empty(100, 100),
        Rect::new(0, 0, 10, 10).unwrap(),
        Rect::new(20, 5, 30, 8).unwrap(),
    ]);
    assert_eq!(region.extents(), Rect { x1: 0, y1: 0, x2: 30, y2: 10 });
    assert_eq!(Region::empty().extents(), Rect { x1: 0, y1: 0, x2: 0, y2: 0 });
}

#[test]
fn fixed_whole_and_fractional_values() {
    assert_eq!(Fixed::from_int(20), Fixed(5120));
    assert_eq!(Fixed(5120).to_int(), 20);
    assert!(Fixed(5120).is_integer());
    let ten_and_a_half = Fixed(10 * 256 + 128);
    assert_eq!(ten_and_a_half.to_int(), 10);
    assert!(!ten_and_a_half.is_integer());
    assert_eq!(Fixed::from_raw(7), Fixed(7));
}

#[test]
fn fixed_rounds_towards_negative_infinity() {
    assert_eq!(Fixed(-1).to_int(), -1);
    assert_eq!(Fixed(-256).to_int(), -1);
    assert_eq!(Fixed(-257).round_down(), -2);
    assert_eq!(floor_div_256(i32::MIN), -8388608);
    assert_eq!(floor_div_256(i32::MAX), 8388607);
    assert!(Fixed(-512).is_integer());
    assert!(!Fixed(-513).is_integer());
}

#[test]
fn fixed_from_int_saturates() {
    assert_eq!(Fixed::from_int(i32::MAX), Fixed(i32::MAX));
    assert_eq!(Fixed::from_int(i32::MIN), Fixed(i32::MIN));
    assert_eq!(Fixed::from_int(-3), Fixed(-768));
}

#[test]
fn fixed_from_1616_drops_eight_bits() {
    assert_eq!(Fixed::from_1616(0x10000), Fixed(256));
    assert_eq!(Fixed::from_1616(-1), Fixed(-1));
}

#[test]
fn transform_wire_numbers() {
    let all = [
        Transform::Normal,
        Transform::Rotate90,
        Transform::Rotate180,
        Transform::Rotate270,
        Transform::Flip,
        Transform::FlipRotate90,
        Transform::FlipRotate180,
        Transform::FlipRotate270,
    ];
    for (i, t) in all.iter().enumerate() {
        assert_eq!(t.to_wl(), i as i32);
        assert_eq!(Transform::from_wl(i as i32), Some(*t));
    }
    assert_eq!(Transform::from_wl(8), None);
    assert_eq!(Transform::from_wl(-1), None);
    assert_eq!(Transform::default(), Transform::Normal);
}

#[test]
fn transform_swaps_for_quarter_turns() {
    assert_eq!(Transform::Normal.maybe_swap((3, 4)), (3, 4));
    assert_eq!(Transform::Rotate90.maybe_swap((3, 4)), (4, 3));
    assert_eq!(Transform::Rotate180.maybe_swap((3, 4)), (3, 4));
    assert_eq!(Transform::Rotate270.maybe_swap((3, 4)), (4, 3));
    assert_eq!(Transform::Flip.maybe_swap((3, 4)), (3, 4));
    assert_eq!(Transform::FlipRotate90.maybe_swap((3, 4)), (4, 3));
    assert_eq!(Transform::FlipRotate180.maybe_swap((3, 4)), (3, 4));
    assert_eq!(Transform::FlipRotate270.maybe_swap((3, 4)), (4, 3));
}
