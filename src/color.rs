use vstd::prelude::*;

verus! {

/// Number of fixed-point units in 1.0: a full-intensity channel, or a whole unit of length.
pub const FIXED_ONE: i64 = 100_000;

/// Tolerance of approximate equality, in fixed-point units (0.0001).
pub const EPSILON: i64 = 10;

/// Whether `v` is representable as a channel value.
pub open spec fn fits(v: int) -> bool {
    i64::MIN <= v <= i64::MAX
}

/// The fixed-point product of `a` and `b`, rounded down to a unit.
pub open spec fn fixed_mul(a: int, b: int) -> int {
    (a * b) / (FIXED_ONE as int)
}

/// Approximate equality of two channel values.
pub open spec fn near(a: int, b: int) -> bool {
    -(EPSILON as int) < a - b < EPSILON as int
}

/// An RGB color. Each channel is a fixed-point number: `FIXED_ONE` units make 1.0.
/// Channels are not clamped; values above 1.0 or below 0.0 are kept as they are.
#[derive(Clone, Copy, Debug, PartialEq, Eq, Structural)]
pub struct Color {
    pub r: i64,
    pub g: i64,
    pub b: i64,
}

/// Rounds `p / FIXED_ONE` down, for any sign of `p`.
pub(crate) fn div_one_floor(p: i128) -> (q: i128)
    requires
        i128::MIN + FIXED_ONE <= p,
    ensures
        q == (p as int) / (FIXED_ONE as int),
{
    let one = FIXED_ONE as i128;
    if p >= 0 {
        p / one
    } else {
        let q = -((-p + (one - 1)) / one);
        assert(q == (p as int) / 100_000) by (nonlinear_arith)
            requires
                p < 0,
                q == -((-(p as int) + 100_000 - 1) / 100_000),
        ;
        q
    }
}

impl Color {
    pub fn new(r: i64, g: i64, b: i64) -> (c: Color)
        ensures
            c.r == r,
            c.g == g,
            c.b == b,
    {
        Color { r, g, b }
    }

    pub fn r(&self) -> (v: i64)
        ensures
            v == self.r,
    {
        self.r
    }

    pub fn g(&self) -> (v: i64)
        ensures
            v == self.g,
    {
        self.g
    }

    pub fn b(&self) -> (v: i64)
        ensures
            v == self.b,
    {
        self.b
    }

    /// Channel-wise approximate equality: every pair of channels differs by less than `EPSILON`.
    pub fn is_equal(&self, other: &Color) -> (res: bool)
        ensures
            res == (near(self.r as int, other.r as int) && near(self.g as int, other.g as int)
                && near(self.b as int, other.b as int)),
    {
        near_exec(self.r, other.r) && near_exec(self.g, other.g) && near_exec(self.b, other.b)
    }

    /// Channel-wise sum.
    pub fn add(&self, other: &Color) -> (c: Color)
        requires
            fits(self.r + other.r),
            fits(self.g + other.g),
            fits(self.b + other.b),
        ensures
            c.r == self.r + other.r,
            c.g == self.g + other.g,
            c.b == self.b + other.b,
    {
        Color { r: self.r + other.r, g: self.g + other.g, b: self.b + other.b }
    }

    /// Channel-wise difference.
    pub fn sub(&self, other: &Color) -> (c: Color)
        requires
            fits(self.r - other.r),
            fits(self.g - other.g),
            fits(self.b - other.b),
        ensures
            c.r == self.r - other.r,
            c.g == self.g - other.g,
            c.b == self.b - other.b,
    {
        Color { r: self.r - other.r, g: self.g - other.g, b: self.b - other.b }
    }

    /// Every channel multiplied by the fixed-point scalar `k`.
    pub fn scale(&self, k: i64) -> (c: Color)
        requires
            fits(fixed_mul(self.r as int, k as int)),
            fits(fixed_mul(self.g as int, k as int)),
            fits(fixed_mul(self.b as int, k as int)),
        ensures
            c.r == fixed_mul(self.r as int, k as int),
            c.g == fixed_mul(self.g as int, k as int),
            c.b == fixed_mul(self.b as int, k as int),
    {
        Color {
            r: mul_fixed_exec(self.r, k),
            g: mul_fixed_exec(self.g, k),
            b: mul_fixed_exec(self.b, k),
        }
    }

    /// Channel-wise (Hadamard) product, as used to tint a surface color by a light's intensity.
    pub fn hadamard(&self, other: &Color) -> (c: Color)
        requires
            fits(fixed_mul(self.r as int, other.r as int)),
            fits(fixed_mul(self.g as int, other.g as int)),
            fits(fixed_mul(self.b as int, other.b as int)),
        ensures
            c.r == fixed_mul(self.r as int, other.r as int),
            c.g == fixed_mul(self.g as int, other.g as int),
            c.b == fixed_mul(self.b as int, other.b as int),
    {
        Color {
            r: mul_fixed_exec(self.r, other.r),
            g: mul_fixed_exec(self.g, other.g),
            b: mul_fixed_exec(self.b, other.b),
        }
    }
}

fn near_exec(a: i64, b: i64) -> (res: bool)
    ensures
        res == near(a as int, b as int),
{
    let d = (a as i128) - (b as i128);
    -(EPSILON as i128) < d && d < EPSILON as i128
}

fn mul_fixed_exec(a: i64, b: i64) -> (p: i64)
    requires
        fits(fixed_mul(a as int, b as int)),
    ensures
        p == fixed_mul(a as int, b as int),
{
    let prod = (a as i128) * (b as i128);
    assert(-0x4000_0000_0000_0000_0000_0000_0000_0000 <= prod <= 0x4000_0000_0000_0000_0000_0000_0000_0000)
        by (nonlinear_arith)
        requires
            prod == (a as int) * (b as int),
            i64::MIN <= a <= i64::MAX,
            i64::MIN <= b <= i64::MAX,
    ;
    div_one_floor(prod) as i64
}

/// Black: every channel zero.
pub fn black() -> (c: Color)
    ensures
        c == (Color { r: 0, g: 0, b: 0 }),
{
    Color::new(0, 0, 0)
}

/// White: every channel at full intensity.
pub fn white() -> (c: Color)
    ensures
        c == (Color { r: FIXED_ONE, g: FIXED_ONE, b: FIXED_ONE }),
{
    Color::new(FIXED_ONE, FIXED_ONE, FIXED_ONE)
}

} // verus!
