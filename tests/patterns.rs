use raytracer::color::{black, white, FIXED_ONE};
use raytracer::patterns::{
    CheckersPattern, GradientPattern, Pattern, PatternPoint, RingPattern, StripePattern,
};
use raytracer::Color;

fn at_x(floor_x: i64, fraction_x: i64) -> PatternPoint {
    PatternPoint { floor_x, floor_y: 0, floor_z: 0, ring: floor_x.abs(), fraction_x }
}

#[test]
fn create_stripe_pattern() {
    let pattern = StripePattern::new(white(), black());
    assert_eq!(pattern.color_a, white());
    assert_eq!(pattern.color_b, black());
}

fn at(x: (i64, i64), y: i64, z: i64) -> PatternPoint {
    PatternPoint { floor_x: x.0, floor_y: y, floor_z: z, ring: 0, fraction_x: x.1 }
}

#[test]
fn stripe_pattern_constant_y() {
    let pattern = StripePattern::new(white(), black());
    assert_eq!(pattern.pattern_at(&at((0, 0), 0, 0)), white());
    assert_eq!(pattern.pattern_at(&at((0, 0), 1, 0)), white());
    assert_eq!(pattern.pattern_at(&at((0, 0), 2, 0)), white());
}

#[test]
fn stripe_pattern_constant_z() {
    let pattern = StripePattern::new(white(), black());
    assert_eq!(pattern.pattern_at(&at((0, 0), 0, 0)), white());
    assert_eq!(pattern.pattern_at(&at((0, 0), 0, 1)), white());
    assert_eq!(pattern.pattern_at(&at((0, 0), 0, 2)), white());
}

#[test]
fn stripe_pattern_alternates_x() {
    let pattern = StripePattern::new(white(), black());
    // x = 0, 0.9, 1, -0.1, -1, -1.1 as floor and fraction
    assert_eq!(pattern.pattern_at(&at_x(0, 0)), white());
    assert_eq!(pattern.pattern_at(&at_x(0, 90_000)), white());
    assert_eq!(pattern.pattern_at(&at_x(1, 0)), black());
    assert_eq!(pattern.pattern_at(&at_x(-1, 90_000)), black());
    assert_eq!(pattern.pattern_at(&at_x(-1, 0)), black());
    assert_eq!(pattern.pattern_at(&at_x(-2, 90_000)), white());
}

#[test]
fn gradient_linearly_interpolates_between_colors() {
    let pattern = GradientPattern::new(white(), black());
    assert_eq!(pattern.pattern_at(&at_x(0, 0)), white());
    assert_eq!(pattern.pattern_at(&at_x(0, 25_000)), Color::new(75_000, 75_000, 75_000));
    assert_eq!(pattern.pattern_at(&at_x(0, 50_000)), Color::new(50_000, 50_000, 50_000));
    assert_eq!(pattern.pattern_at(&at_x(0, 75_000)), Color::new(25_000, 25_000, 25_000));
}

#[test]
fn gradient_stays_between_extreme_colors() {
    let a = Color::new(i64::MIN, i64::MAX, 0);
    let b = Color::new(i64::MAX, i64::MIN, 0);
    let c = GradientPattern::new(a, b).pattern_at(&at_x(0, FIXED_ONE - 1));
    assert!(c.r > 0 && c.g < 0 && c.b == 0);
}

fn ring(r: i64) -> PatternPoint {
    PatternPoint { floor_x: 0, floor_y: 0, floor_z: 0, ring: r, fraction_x: 0 }
}

#[test]
fn ring_should_extend_in_both_x_and_z() {
    let pattern = RingPattern::new(white(), black());
    // distances 0, 1 (along x), 1 (along z), and 1.0013 for (0.708, 0, 0.708)
    assert_eq!(pattern.pattern_at(&ring(0)), white());
    assert_eq!(pattern.pattern_at(&ring(1)), black());
    assert_eq!(pattern.pattern_at(&ring(1)), black());
    assert_eq!(pattern.pattern_at(&ring(1)), black());
    assert_eq!(pattern.pattern_at(&ring(2)), white());
}

#[test]
fn checkers_should_repeat_in_x() {
    let pattern = CheckersPattern::new(white(), black());
    assert_eq!(pattern.pattern_at(&at((0, 0), 0, 0)), white());
    assert_eq!(pattern.pattern_at(&at((0, 99_000), 0, 0)), white());
    assert_eq!(pattern.pattern_at(&at((1, 1_000), 0, 0)), black());
}

#[test]
fn checkers_should_repeat_in_y() {
    let pattern = CheckersPattern::new(white(), black());
    assert_eq!(pattern.pattern_at(&at((0, 0), 0, 0)), white());
    assert_eq!(pattern.pattern_at(&at((0, 0), 0, 0)), white());
    assert_eq!(pattern.pattern_at(&at((0, 0), 1, 0)), black());
}

#[test]
fn checkers_should_repeat_in_z() {
    let pattern = CheckersPattern::new(white(), black());
    assert_eq!(pattern.pattern_at(&at((0, 0), 0, 0)), white());
    assert_eq!(pattern.pattern_at(&at((0, 0), 0, 0)), white());
    assert_eq!(pattern.pattern_at(&at((0, 0), 0, 1)), black());
}

#[test]
fn checkers_alternate_across_cells() {
    let pattern = CheckersPattern::new(white(), black());
    assert_eq!(pattern.pattern_at(&at((1, 0), 1, 0)), white());
    assert_eq!(pattern.pattern_at(&at((-1, 0), 0, 0)), black());
    assert_eq!(pattern.pattern_at(&at((i64::MAX, 0), i64::MAX, 0)), white());
}

#[test]
fn pattern_dispatches_on_kind() {
    let p = at_x(1, 50_000);
    assert_eq!(Pattern::Stripe(StripePattern::new(white(), black())).pattern_at(&p), black());
    assert_eq!(
        Pattern::Gradient(GradientPattern::new(white(), black())).pattern_at(&p),
        Color::new(50_000, 50_000, 50_000)
    );
    assert_eq!(Pattern::Ring(RingPattern::new(white(), black())).pattern_at(&p), black());
    assert_eq!(Pattern::Checkers(CheckersPattern::new(white(), black())).pattern_at(&p), black());
}

#[test]
fn uniform_pattern_paints_one_color() {
    let c = Color::new(10_000, 90_000, 30_000);
    let patterns = [
        Pattern::Stripe(StripePattern::new(c, c)),
        Pattern::Gradient(GradientPattern::new(c, c)),
        Pattern::Ring(RingPattern::new(c, c)),
        Pattern::Checkers(CheckersPattern::new(c, c)),
    ];
    for pattern in &patterns {
        for x in -3..3 {
            for f in [0, 1, 33_333, 99_999] {
                assert_eq!(pattern.pattern_at(&at_x(x, f)), c);
            }
        }
    }
}
