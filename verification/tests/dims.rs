use imgconv::dims::calc_new_dimensions;

#[test]
fn plan_scales_down_long_side() {
    assert_eq!(calc_new_dimensions((100, 50), 50), (50, 25));
}

#[test]
fn plan_no_limit_keeps_size() {
    assert_eq!(calc_new_dimensions((100, 50), 0), (100, 50));
}

#[test]
fn plan_limit_at_long_side_keeps_size() {
    assert_eq!(calc_new_dimensions((100, 50), 100), (100, 50));
}

#[test]
fn plan_limit_above_long_side_keeps_size() {
    assert_eq!(calc_new_dimensions((100, 50), 200), (100, 50));
}

#[test]
fn plan_portrait() {
    assert_eq!(calc_new_dimensions((3000, 4000), 1000), (750, 1000));
}

#[test]
fn plan_square() {
    assert_eq!(calc_new_dimensions((7, 7), 3), (3, 3));
}

#[test]
fn plan_floors_small_side_at_one() {
    assert_eq!(calc_new_dimensions((10000, 1), 5), (5, 1));
}

#[test]
fn plan_rounds_toward_zero() {
    assert_eq!(calc_new_dimensions((99, 50), 50), (50, 25));
}
