use taimi::geometry::GridPoint;

#[test]
fn distance_squared_is_sum_of_squares() {
    let a = GridPoint::new(1, 2, 3);
    let b = GridPoint::new(4, 6, 3);
    assert_eq!(a.distance_squared(b), 25);
    assert_eq!(b.distance_squared(a), 25);
    assert_eq!(a.distance_squared(a), 0);
}

#[test]
fn distance_squared_of_far_corners_does_not_overflow() {
    let low = GridPoint::new(i32::MIN, i32::MIN, i32::MIN);
    let high = GridPoint::new(i32::MAX, i32::MAX, i32::MAX);
    let side: i128 = 4294967295;
    assert_eq!(low.distance_squared(high), 3 * side * side);
}

#[test]
fn sphere_is_strict() {
    let centre = GridPoint::new(0, 0, 0);
    assert!(GridPoint::new(3, 0, 0).is_within_radius(centre, 5));
    assert!(GridPoint::new(3, 3, 2).is_within_radius(centre, 5));
    assert!(!GridPoint::new(5, 0, 0).is_within_radius(centre, 5));
    assert!(!GridPoint::new(3, 4, 0).is_within_radius(centre, 5));
    assert!(!GridPoint::new(10, 0, 0).is_within_radius(centre, 5));
}

#[test]
fn sphere_of_no_radius_holds_nothing() {
    let centre = GridPoint::new(7, 7, 7);
    assert!(!centre.is_within_radius(centre, 0));
    assert!(!centre.is_within_radius(centre, -3));
    assert!(centre.is_within_radius(centre, 1));
}

#[test]
fn sphere_with_largest_radius() {
    let centre = GridPoint::new(0, 0, 0);
    assert!(GridPoint::new(i32::MAX - 1, 0, 0).is_within_radius(centre, i32::MAX));
    assert!(!GridPoint::new(i32::MAX, 0, 0).is_within_radius(centre, i32::MAX));
    assert!(!GridPoint::new(i32::MIN, i32::MIN, i32::MIN).is_within_radius(centre, i32::MAX));
}

#[test]
fn box_bounds_are_inclusive() {
    let a = GridPoint::new(0, 0, 0);
    let b = GridPoint::new(10, 10, 10);
    assert!(GridPoint::new(5, 5, 5).is_within_box(a, b));
    assert!(GridPoint::new(0, 0, 0).is_within_box(a, b));
    assert!(GridPoint::new(10, 10, 10).is_within_box(a, b));
    assert!(GridPoint::new(0, 10, 5).is_within_box(a, b));
    assert!(!GridPoint::new(-1, 5, 5).is_within_box(a, b));
    assert!(!GridPoint::new(5, 11, 5).is_within_box(a, b));
    assert!(!GridPoint::new(5, 5, -1).is_within_box(a, b));
}

#[test]
fn box_corners_may_come_in_any_order() {
    let a = GridPoint::new(10, 0, 10);
    let b = GridPoint::new(0, 10, 0);
    assert!(GridPoint::new(5, 5, 5).is_within_box(a, b));
    assert!(GridPoint::new(5, 5, 5).is_within_box(b, a));
    assert!(GridPoint::new(10, 10, 10).is_within_box(a, b));
    assert!(!GridPoint::new(11, 5, 5).is_within_box(a, b));
}

#[test]
fn component_min_and_max() {
    let a = GridPoint::new(1, 8, -3);
    let b = GridPoint::new(4, 2, -3);
    assert_eq!(a.component_min(b), GridPoint::new(1, 2, -3));
    assert_eq!(a.component_max(b), GridPoint::new(4, 8, -3));
    assert_eq!(b.component_min(a), GridPoint::new(1, 2, -3));
}

#[test]
fn comparisons_on_every_axis() {
    let a = GridPoint::new(1, 2, 3);
    assert!(a.all_ge(GridPoint::new(1, 2, 3)));
    assert!(a.all_le(GridPoint::new(1, 2, 3)));
    assert!(a.all_ge(GridPoint::new(0, 2, 1)));
    assert!(!a.all_ge(GridPoint::new(0, 3, 1)));
    assert!(a.all_le(GridPoint::new(1, 5, 9)));
    assert!(!a.all_le(GridPoint::new(0, 5, 9)));
}
