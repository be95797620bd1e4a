use vstd::prelude::*;

use crate::color::{div_one_floor, fixed_mul, Color, FIXED_ONE};

verus! {

/// Where a point lies in pattern space, as the pattern rules read it: the floors of
/// its coordinates, the floor of its distance from the y axis, and the fractional
/// part of its x coordinate in fixed-point units.
#[derive(Clone, Copy, Debug, PartialEq, Eq, Structural)]
pub struct PatternPoint {
    pub floor_x: i64,
    pub floor_y: i64,
    pub floor_z: i64,
    pub ring: i64,
    pub fraction_x: i64,
}

impl PatternPoint {
    /// Whether the fractional part lies in `[0, 1)` and the distance is not negative.
    pub open spec fn wf(&self) -> bool {
        &&& 0 <= self.fraction_x < FIXED_ONE
        &&& 0 <= self.ring
    }
}

/// Whether `n` is even, for either sign.
pub open spec fn even(n: int) -> bool {
    n % 2 == 0
}

/// Channel `a` moved towards `b` by `f` (a fixed-point fraction).
pub open spec fn blend(a: int, b: int, f: int) -> int {
    a + fixed_mul(b - a, f)
}

/// Alternates between two colors along x: `color_a` where the floor of x is even.
#[derive(Clone, Copy, Debug, PartialEq, Eq, Structural)]
pub struct StripePattern {
    pub color_a: Color,
    pub color_b: Color,
}

/// Moves linearly from `color_a` to `color_b` across each unit of x.
#[derive(Clone, Copy, Debug, PartialEq, Eq, Structural)]
pub struct GradientPattern {
    pub color_a: Color,
    pub color_b: Color,
}

/// Concentric rings around the y axis: `color_a` where the floor of the distance is even.
#[derive(Clone, Copy, Debug, PartialEq, Eq, Structural)]
pub struct RingPattern {
    pub color_a: Color,
    pub color_b: Color,
}

/// Unit cubes in alternating colors: `color_a` where the floors of x, y and z sum to an
/// even number.
#[derive(Clone, Copy, Debug, PartialEq, Eq, Structural)]
pub struct CheckersPattern {
    pub color_a: Color,
    pub color_b: Color,
}

fn is_even(n: i128) -> (r: bool)
    ensures
        r == even(n as int),
{
    n % 2 == 0
}

impl StripePattern {
    pub fn new(color_a: Color, color_b: Color) -> (p: StripePattern)
        ensures
            p.color_a == color_a,
            p.color_b == color_b,
    {
        StripePattern { color_a, color_b }
    }

    pub open spec fn spec_pattern_at(&self, p: PatternPoint) -> Color {
        if even(p.floor_x as int) {
            self.color_a
        } else {
            self.color_b
        }
    }

    pub fn pattern_at(&self, p: &PatternPoint) -> (c: Color)
        ensures
            c == self.spec_pattern_at(*p),
    {
        if is_even(p.floor_x as i128) {
            self.color_a
        } else {
            self.color_b
        }
    }
}

fn blend_exec(a: i64, b: i64, f: i64) -> (r: i64)
    requires
        0 <= f < FIXED_ONE,
    ensures
        r == blend(a as int, b as int, f as int),
{
    let d = (b as i128) - (a as i128);
    assert(-0x10_0000_0000_0000_0000_0000 <= d * f <= 0x10_0000_0000_0000_0000_0000)
        by (nonlinear_arith)
        requires
            -0x2_0000_0000_0000_0000 <= d <= 0x2_0000_0000_0000_0000,
            0 <= f < 100_000,
    ;
    let prod = d * (f as i128);
    let m = div_one_floor(prod);
    assert(d >= 0 ==> 0 <= m <= d) by (nonlinear_arith)
        requires
            m == (d * f) / 100_000,
            0 <= f < 100_000,
    ;
    assert(d < 0 ==> d <= m <= 0) by (nonlinear_arith)
        requires
            m == (d * f) / 100_000,
            0 <= f < 100_000,
    ;
    ((a as i128) + m) as i64
}

/// The gradient between `a` and `b` at fraction `f`, channel by channel.
pub open spec fn blend_colors(a: Color, b: Color, f: int) -> Color {
    Color {
        r: blend(a.r as int, b.r as int, f) as i64,
        g: blend(a.g as int, b.g as int, f) as i64,
        b: blend(a.b as int, b.b as int, f) as i64,
    }
}

impl GradientPattern {
    pub fn new(color_a: Color, color_b: Color) -> (p: GradientPattern)
        ensures
            p.color_a == color_a,
            p.color_b == color_b,
    {
        GradientPattern { color_a, color_b }
    }

    pub open spec fn spec_pattern_at(&self, p: PatternPoint) -> Color {
        blend_colors(self.color_a, self.color_b, p.fraction_x as int)
    }

    /// `color_a` plus the fraction `p.fraction_x` of the way to `color_b`, rounded down
    /// to a unit in each channel.
    pub fn pattern_at(&self, p: &PatternPoint) -> (c: Color)
        requires
            p.wf(),
        ensures
            c == self.spec_pattern_at(*p),
    {
        let a = self.color_a;
        let b = self.color_b;
        let f = p.fraction_x;
        Color { r: blend_exec(a.r, b.r, f), g: blend_exec(a.g, b.g, f), b: blend_exec(a.b, b.b, f) }
    }
}

impl RingPattern {
    pub fn new(color_a: Color, color_b: Color) -> (p: RingPattern)
        ensures
            p.color_a == color_a,
            p.color_b == color_b,
    {
        RingPattern { color_a, color_b }
    }

    pub open spec fn spec_pattern_at(&self, p: PatternPoint) -> Color {
        if even(p.ring as int) {
            self.color_a
        } else {
            self.color_b
        }
    }

    pub fn pattern_at(&self, p: &PatternPoint) -> (c: Color)
        ensures
            c == self.spec_pattern_at(*p),
    {
        if is_even(p.ring as i128) {
            self.color_a
        } else {
            self.color_b
        }
    }
}

impl CheckersPattern {
    pub fn new(color_a: Color, color_b: Color) -> (p: CheckersPattern)
        ensures
            p.color_a == color_a,
            p.color_b == color_b,
    {
        CheckersPattern { color_a, color_b }
    }

    pub open spec fn spec_pattern_at(&self, p: PatternPoint) -> Color {
        if even(p.floor_x + p.floor_y + p.floor_z) {
            self.color_a
        } else {
            self.color_b
        }
    }

    pub fn pattern_at(&self, p: &PatternPoint) -> (c: Color)
        ensures
            c == self.spec_pattern_at(*p),
    {
        if is_even((p.floor_x as i128) + (p.floor_y as i128) + (p.floor_z as i128)) {
            self.color_a
        } else {
            self.color_b
        }
    }
}

/// A surface pattern of any of the four kinds.
#[derive(Clone, Copy, Debug, PartialEq, Eq, Structural)]
pub enum Pattern {
    Stripe(StripePattern),
    Gradient(GradientPattern),
    Ring(RingPattern),
    Checkers(CheckersPattern),
}

impl Pattern {
    /// The first of the pattern's two colors.
    pub open spec fn first_color(&self) -> Color {
        match self {
            Pattern::Stripe(p) => p.color_a,
            Pattern::Gradient(p) => p.color_a,
            Pattern::Ring(p) => p.color_a,
            Pattern::Checkers(p) => p.color_a,
        }
    }

    /// The second of the pattern's two colors.
    pub open spec fn second_color(&self) -> Color {
        match self {
            Pattern::Stripe(p) => p.color_b,
            Pattern::Gradient(p) => p.color_b,
            Pattern::Ring(p) => p.color_b,
            Pattern::Checkers(p) => p.color_b,
        }
    }

    pub open spec fn spec_pattern_at(&self, p: PatternPoint) -> Color {
        match self {
            Pattern::Stripe(s) => s.spec_pattern_at(p),
            Pattern::Gradient(g) => g.spec_pattern_at(p),
            Pattern::Ring(r) => r.spec_pattern_at(p),
            Pattern::Checkers(c) => c.spec_pattern_at(p),
        }
    }

    /// The color of the pattern at `p`, by the rule of its kind.
    pub fn pattern_at(&self, p: &PatternPoint) -> (c: Color)
        requires
            p.wf(),
        ensures
            c == self.spec_pattern_at(*p),
    {
        match self {
            Pattern::Stripe(s) => s.pattern_at(p),
            Pattern::Gradient(g) => g.pattern_at(p),
            Pattern::Ring(r) => r.pattern_at(p),
            Pattern::Checkers(c) => c.pattern_at(p),
        }
    }
}

/// A pattern whose two colors are equal paints that color everywhere: at every point it
/// gives the same color as a flat material of that color.
pub proof fn lemma_uniform_pattern_is_flat(pat: Pattern, p: PatternPoint)
    requires
        pat.first_color() == pat.second_color(),
        p.wf(),
    ensures
        pat.spec_pattern_at(p) == pat.first_color(),
{
    if let Pattern::Gradient(g) = pat {
        let a = g.color_a;
        assert(fixed_mul(0, p.fraction_x as int) == 0);
        assert(blend_colors(a, a, p.fraction_x as int) == a);
    }
}

} // verus!
