#[test]
fn it_works() {
    let result = rust_plug::math::add(2, 2);
    assert_eq!(result, 4);
    let result = rust_plug::math::sub(3, 1);
    assert_eq!(result, 2);
}

#[test]
fn sum_and_difference_at_the_limits() {
    assert_eq!(rust_plug::math::add(i32::MAX, 0), i32::MAX);
    assert_eq!(rust_plug::math::add(i32::MAX, i32::MIN), -1);
    assert_eq!(rust_plug::math::add(-5, 3), -2);
    assert_eq!(rust_plug::math::sub(i32::MIN, 0), i32::MIN);
    assert_eq!(rust_plug::math::sub(-1, i32::MAX), i32::MIN);
    assert_eq!(rust_plug::math::sub(7, -3), 10);
}
