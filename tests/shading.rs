use raytracer::shading::reflection_budget;

#[test]
fn no_reflection_without_budget() {
    assert_eq!(reflection_budget(0, true), None);
    assert_eq!(reflection_budget(1, true), None);
}

#[test]
fn no_reflection_off_a_matte_surface() {
    assert_eq!(reflection_budget(4, false), None);
}

#[test]
fn reflection_uses_one_bounce() {
    assert_eq!(reflection_budget(4, true), Some(3));
    assert_eq!(reflection_budget(2, true), Some(1));
    assert_eq!(reflection_budget(u8::MAX, true), Some(u8::MAX - 1));
}
