//! Exact numeric utilities: range mapping and color-space conversion over
//! rational numbers.
//!
//! The sketch API hands fractional quantities (saturation, value, range
//! positions) around as exact rationals instead of floating-point numbers,
//! so every conversion here has a precise contract.

use vstd::arithmetic::div_mod::{
    lemma_div_is_ordered, lemma_div_pos_is_pos, lemma_fundamental_div_mod,
    lemma_fundamental_div_mod_converse, lemma_hoist_over_denominator,
};
use vstd::math::{abs, max3};
use vstd::prelude::*;

verus! {

/// Magnitude bound on numerators and denominators accepted by the range
/// mapping operations; keeps every intermediate product inside `i128`.
pub const RAT_BOUND: i128 = 16777216;

/// A rational number `num / den`.
///
/// A well-formed rational keeps `den > 0`; the sign lives in `num`.
/// Every value this module produces is in lowest terms — the constructor
/// contracts state that no integer above 1 divides both parts — so equal
/// values have one representation and `==` compares rationals by value.
#[derive(Clone, Copy, Debug, PartialEq, Eq, Structural)]
pub struct Rat {
    pub num: i128,
    pub den: i128,
}

impl Rat {
    /// Well-formedness: the denominator is positive.
    pub open spec fn wf(self) -> bool {
        self.den > 0
    }

    /// `self` represents the fraction `n / d` (meaningful for `d != 0`).
    pub open spec fn is_ratio(self, n: int, d: int) -> bool {
        self.num * d == n * self.den
    }

    /// Numerator and denominator are bounded enough to feed the range
    /// mapping operations without overflowing `i128`.
    pub open spec fn small(self) -> bool {
        &&& -RAT_BOUND <= self.num <= RAT_BOUND
        &&& 0 < self.den <= RAT_BOUND
    }

    /// Build the rational `num / den`, in lowest terms: no integer above
    /// 1 divides both parts of the result.
    pub fn new(num: i64, den: i64) -> (r: Rat)
        requires
            den != 0,
        ensures
            r.wf(),
            r.is_ratio(num as int, den as int),
            -abs(num as int) <= r.num <= abs(num as int),
            0 < r.den <= abs(den as int),
            num == 0 ==> r.num == 0 && r.den == 1,
            forall|q: int| 2 <= q ==> !(divides(q, r.num as int) && divides(q, r.den as int)),
    {
        normalize(num as i128, den as i128)
    }
}

/// Clamp `x` into the closed interval from `low` to `high`.
///
/// When `low <= x <= high` the value is returned unchanged; values below
/// `low` are raised to `low`, values above `high` are lowered to `high`.
pub fn constrain(x: i32, low: i32, high: i32) -> (r: i32)
    ensures
        r == (if x < low {
            low
        } else if x > high {
            high
        } else {
            x
        }),
        low <= x <= high ==> r == x,
        x < low ==> r == low,
        low <= high && x > high ==> r == high,
{
    if x < low {
        low
    } else if x > high {
        high
    } else {
        x
    }
}

/// Clamp the rational `x` into the closed interval from `low` to `high`,
/// comparing by value; the result is one of the three arguments,
/// unchanged.  [`cross`] is negative exactly when its first argument is
/// the smaller value, so the contract mirrors [`constrain`]'s.
pub fn constrain_rat(x: Rat, low: Rat, high: Rat) -> (r: Rat)
    requires
        x.small(),
        low.small(),
        high.small(),
    ensures
        r == (if cross(x, low) < 0 {
            low
        } else if cross(x, high) > 0 {
            high
        } else {
            x
        }),
{
    proof {
        lemma_mul_bounds(x.num as int, low.den as int, 0x1000000, 0x1000000);
        lemma_mul_bounds(low.num as int, x.den as int, 0x1000000, 0x1000000);
        lemma_mul_bounds(x.num as int, high.den as int, 0x1000000, 0x1000000);
        lemma_mul_bounds(high.num as int, x.den as int, 0x1000000, 0x1000000);
    }
    let below = x.num * low.den - low.num * x.den;
    if below < 0 {
        return low;
    }
    let above = x.num * high.den - high.num * x.den;
    if above > 0 {
        return high;
    }
    x
}

/// `x` is divisible by `d`.
pub open spec fn divides(d: int, x: int) -> bool {
    exists|k: int| x == #[trigger] (d * k)
}

/// The greatest common divisor of `a` and `b`, by Euclid's algorithm: a
/// positive common divisor that every common divisor divides.
fn gcd(a: i128, b: i128) -> (g: i128)
    requires
        0 <= a,
        0 < b,
    ensures
        1 <= g,
        divides(g as int, a as int),
        divides(g as int, b as int),
        forall|d: int| divides(d, a as int) && divides(d, b as int) ==> divides(d, g as int),
        a == 0 ==> g == b,
{
    let mut x = a;
    let mut y = b;
    while y != 0
        invariant
            0 <= x,
            0 <= y,
            y == 0 ==> x >= 1,
            a == 0 ==> ((x == 0 && y == b) || (x == b && y == 0)),
            forall|d: int|
                divides(d, x as int) && divides(d, y as int) ==> divides(d, a as int) && divides(
                    d,
                    b as int,
                ),
            forall|d: int|
                divides(d, a as int) && divides(d, b as int) ==> divides(d, x as int) && divides(
                    d,
                    y as int,
                ),
        decreases y,
    {
        let r = x % y;
        proof {
            let xi = x as int;
            let yi = y as int;
            let ri = r as int;
            lemma_fundamental_div_mod(xi, yi);
            assert forall|d: int| divides(d, yi) && divides(d, ri) implies divides(
                d,
                xi,
            ) && divides(d, yi) by {
                let k1 = choose|k: int| yi == #[trigger] (d * k);
                let k2 = choose|k: int| ri == #[trigger] (d * k);
                assert(xi == d * (k1 * (xi / yi) + k2)) by (nonlinear_arith)
                    requires
                        yi == d * k1,
                        ri == d * k2,
                        xi == yi * (xi / yi) + ri,
                ;
            }
            assert forall|d: int| divides(d, xi) && divides(d, yi) implies divides(
                d,
                yi,
            ) && divides(d, ri) by {
                let k1 = choose|k: int| xi == #[trigger] (d * k);
                let k2 = choose|k: int| yi == #[trigger] (d * k);
                assert(ri == d * (k1 - k2 * (xi / yi))) by (nonlinear_arith)
                    requires
                        xi == d * k1,
                        yi == d * k2,
                        xi == yi * (xi / yi) + ri,
                ;
            }
        }
        x = y;
        y = r;
    }
    proof {
        assert(x as int == (x as int) * 1);
        assert(0int == (x as int) * 0);
    }
    x
}

/// Reduce `num / den` to a well-formed rational with the same value, in
/// lowest terms: no integer above 1 divides both parts of the result.
fn normalize(num: i128, den: i128) -> (r: Rat)
    requires
        den != 0,
        num != i128::MIN,
        den != i128::MIN,
    ensures
        r.wf(),
        r.is_ratio(num as int, den as int),
        -abs(num as int) <= r.num <= abs(num as int),
        0 < r.den <= abs(den as int),
        num == 0 ==> r.num == 0 && r.den == 1,
        forall|q: int| 2 <= q ==> !(divides(q, r.num as int) && divides(q, r.den as int)),
{
    let (n, d): (i128, i128) = if den < 0 {
        (-num, -den)
    } else {
        (num, den)
    };
    let a = if n < 0 {
        -n
    } else {
        n
    };
    let g = gcd(a, d);
    let ka = exact_div(a, g);
    let kd = exact_div(d, g);
    let rn = if n < 0 {
        -ka
    } else {
        ka
    };
    let r = Rat { num: rn, den: kd };
    proof {
        let gi = g as int;
        // value preservation: rn * den == num * kd
        assert(r.num * (den as int) == (num as int) * (kd as int)) by (nonlinear_arith)
            requires
                a as int == gi * (ka as int),
                d as int == gi * (kd as int),
                gi >= 1,
                (n as int == num as int && d as int == den as int) || (n as int == -(num as int)
                    && d as int == -(den as int)),
                (n >= 0 && a as int == n as int && r.num == ka as int) || (n < 0 && a as int == -(
                n as int) && r.num == -(ka as int)),
        ;
        // magnitude bounds: dividing by g >= 1 does not grow anything
        assert(0 <= ka as int <= a as int && 1 <= kd as int <= d as int) by (nonlinear_arith)
            requires
                a as int == gi * (ka as int),
                d as int == gi * (kd as int),
                gi >= 1,
                a >= 0,
                d >= 1,
        ;
        if num == 0 {
            assert(kd as int == 1) by (nonlinear_arith)
                requires
                    d as int == gi * (kd as int),
                    gi == d as int,
                    d >= 1,
                    kd >= 1,
            ;
        }
        // lowest terms: a common divisor q > 1 of the result would make
        // g * q a common divisor of the inputs that does not divide g,
        // against g being the greatest
        assert forall|q: int| 2 <= q implies !(divides(q, r.num as int) && divides(
            q,
            r.den as int,
        )) by {
            if divides(q, r.num as int) && divides(q, r.den as int) {
                let m1 = choose|k: int| r.num as int == #[trigger] (q * k);
                let m2 = choose|k: int| r.den as int == #[trigger] (q * k);
                let w = if n < 0 {
                    -m1
                } else {
                    m1
                };
                assert(a as int == (gi * q) * w) by (nonlinear_arith)
                    requires
                        a as int == gi * (ka as int),
                        (n >= 0 && r.num == ka as int) || (n < 0 && r.num == -(ka as int)),
                        r.num as int == q * m1,
                        (n >= 0 && w == m1) || (n < 0 && w == -m1),
                ;
                assert(divides(gi * q, a as int));
                assert(d as int == (gi * q) * m2) by (nonlinear_arith)
                    requires
                        d as int == gi * (kd as int),
                        r.den == kd,
                        r.den as int == q * m2,
                ;
                assert(divides(gi * q, d as int));
                assert(divides(gi * q, gi));
                let k3 = choose|k: int| gi == #[trigger] ((gi * q) * k);
                assert(false) by (nonlinear_arith)
                    requires
                        gi == (gi * q) * k3,
                        gi >= 1,
                        q >= 2,
                ;
            }
        }
    }
    r
}

/// Divide `a` by `g`, where `g` divides `a` exactly.
fn exact_div(a: i128, g: i128) -> (q: i128)
    requires
        0 <= a,
        1 <= g,
        divides(g as int, a as int),
    ensures
        a as int == g as int * q as int,
        q >= 0,
{
    proof {
        let k = choose|k: int| a as int == #[trigger] ((g as int) * k);
        assert(k >= 0) by (nonlinear_arith)
            requires
                a as int == (g as int) * k,
                a >= 0,
                g >= 1,
        ;
        lemma_fundamental_div_mod_converse(a as int, g as int, k, 0);
    }
    a / g
}

/// Numerator of the difference `p - q` over the denominator `p.den * q.den`.
pub open spec fn cross(p: Rat, q: Rat) -> int {
    p.num * q.den - q.num * p.den
}

/// Numerator of `out_min + (out_max - out_min) * (x - x_min) / (x_max - x_min)`
/// over the denominator [`map_den`].
pub open spec fn map_num(x: Rat, a: Rat, b: Rat, c: Rat, d: Rat) -> int {
    c.num * d.den * cross(b, a) * x.den + cross(d, c) * cross(x, a) * b.den
}

/// Denominator matching [`map_num`].
pub open spec fn map_den(x: Rat, a: Rat, b: Rat, c: Rat, d: Rat) -> int {
    c.den * d.den * cross(b, a) * x.den
}

/// Numerator of `(x - x_min) / (x_max - x_min)` over [`norm_den`].
pub open spec fn norm_num(x: Rat, a: Rat, b: Rat) -> int {
    cross(x, a) * b.den
}

/// Denominator matching [`norm_num`].
pub open spec fn norm_den(x: Rat, a: Rat, b: Rat) -> int {
    cross(b, a) * x.den
}

/// The rational zero.
pub open spec fn rat_zero() -> Rat {
    Rat { num: 0, den: 1 }
}

/// The rational one.
pub open spec fn rat_one() -> Rat {
    Rat { num: 1, den: 1 }
}

/// Bound a product by the bounds of its factors.
proof fn lemma_mul_bounds(x: int, y: int, bx: int, by: int)
    by (nonlinear_arith)
    requires
        -bx <= x <= bx,
        -by <= y <= by,
        0 <= bx,
        0 <= by,
    ensures
        -(bx * by) <= x * y <= bx * by,
{
}

/// Map `x` linearly from the range `x_min..x_max` onto `out_min..out_max`.
///
/// The mapping is exact and unclamped: inputs outside the source range
/// extrapolate linearly.  The result is the reduced rational with the value
/// `out_min + (out_max - out_min) * (x - x_min) / (x_max - x_min)`.
pub fn map(x: Rat, x_min: Rat, x_max: Rat, out_min: Rat, out_max: Rat) -> (r: Rat)
    requires
        x.small(),
        x_min.small(),
        x_max.small(),
        out_min.small(),
        out_max.small(),
        cross(x_max, x_min) != 0,
    ensures
        r.wf(),
        r.is_ratio(map_num(x, x_min, x_max, out_min, out_max), map_den(x, x_min, x_max, out_min, out_max)),
{
    proof {
        lemma_mul_bounds(x_max.num as int, x_min.den as int, 0x1000000, 0x1000000);
        lemma_mul_bounds(x_min.num as int, x_max.den as int, 0x1000000, 0x1000000);
        lemma_mul_bounds(x.num as int, x_min.den as int, 0x1000000, 0x1000000);
        lemma_mul_bounds(x_min.num as int, x.den as int, 0x1000000, 0x1000000);
        lemma_mul_bounds(out_max.num as int, out_min.den as int, 0x1000000, 0x1000000);
        lemma_mul_bounds(out_min.num as int, out_max.den as int, 0x1000000, 0x1000000);
    }
    let s_ba = x_max.num * x_min.den - x_min.num * x_max.den;
    let s_xa = x.num * x_min.den - x_min.num * x.den;
    let s_dc = out_max.num * out_min.den - out_min.num * out_max.den;
    let t1 = out_min.num * out_max.den;
    proof {
        lemma_mul_bounds(t1 as int, s_ba as int, 0x1000000000000, 0x2000000000000);
        lemma_mul_bounds(
            (t1 * s_ba) as int,
            x.den as int,
            0x2000000000000000000000000,
            0x1000000,
        );
    }
    let num_a = t1 * s_ba * x.den;
    proof {
        lemma_mul_bounds(s_dc as int, s_xa as int, 0x2000000000000, 0x2000000000000);
        lemma_mul_bounds(
            (s_dc * s_xa) as int,
            x_max.den as int,
            0x4000000000000000000000000,
            0x1000000,
        );
    }
    let num_b = s_dc * s_xa * x_max.den;
    let num = num_a + num_b;
    proof {
        lemma_mul_bounds(out_min.den as int, out_max.den as int, 0x1000000, 0x1000000);
    }
    let t2 = out_min.den * out_max.den;
    proof {
        lemma_mul_bounds(t2 as int, s_ba as int, 0x1000000000000, 0x2000000000000);
        lemma_mul_bounds(
            (t2 * s_ba) as int,
            x.den as int,
            0x2000000000000000000000000,
            0x1000000,
        );
    }
    let den = t2 * s_ba * x.den;
    proof {
        assert(den != 0) by (nonlinear_arith)
            requires
                den as int == out_min.den * out_max.den * s_ba * x.den,
                out_min.den > 0,
                out_max.den > 0,
                x.den > 0,
                s_ba != 0,
        ;
    }
    normalize(num, den)
}

/// Map `x` linearly from the range `x_min..x_max` onto the unit range.
///
/// The result is the reduced rational with the value
/// `(x - x_min) / (x_max - x_min)`, unclamped.
pub fn norm(x: Rat, x_min: Rat, x_max: Rat) -> (r: Rat)
    requires
        x.small(),
        x_min.small(),
        x_max.small(),
        cross(x_max, x_min) != 0,
    ensures
        r.wf(),
        r.is_ratio(norm_num(x, x_min, x_max), norm_den(x, x_min, x_max)),
{
    proof {
        lemma_mul_bounds(x_max.num as int, x_min.den as int, 0x1000000, 0x1000000);
        lemma_mul_bounds(x_min.num as int, x_max.den as int, 0x1000000, 0x1000000);
        lemma_mul_bounds(x.num as int, x_min.den as int, 0x1000000, 0x1000000);
        lemma_mul_bounds(x_min.num as int, x.den as int, 0x1000000, 0x1000000);
    }
    let s_ba = x_max.num * x_min.den - x_min.num * x_max.den;
    let s_xa = x.num * x_min.den - x_min.num * x.den;
    proof {
        lemma_mul_bounds(s_xa as int, x_max.den as int, 0x2000000000000, 0x1000000);
        lemma_mul_bounds(s_ba as int, x.den as int, 0x2000000000000, 0x1000000);
        assert(s_ba * x.den != 0) by (nonlinear_arith)
            requires
                s_ba != 0,
                x.den > 0,
        ;
    }
    normalize(s_xa * x_max.den, s_ba * x.den)
}

/// Polynomial identity behind [`lemma_map_identity`]: with coinciding input
/// and output ranges the mapped fraction cross-multiplies to the input value.
proof fn lemma_identity_poly(an: int, ad: int, bd: int, xn: int, xd: int, u: int, v: int)
    requires
        v == xn * ad - an * xd,
    ensures
        (an * bd * u * xd + u * v * bd) * xd == xn * (ad * bd * u * xd),
{
    let w = u * bd;
    assert(an * bd * u * xd + u * v * bd == w * (an * xd) + w * v) by (nonlinear_arith)
        requires
            w == u * bd,
    ;
    assert(w * (an * xd) + w * v == w * (an * xd + v)) by (nonlinear_arith);
    assert(an * xd + v == xn * ad);
    assert((w * (xn * ad)) * xd == xn * (ad * w * xd)) by (nonlinear_arith);
    assert(xn * (ad * w * xd) == xn * (ad * bd * u * xd)) by (nonlinear_arith)
        requires
            w == u * bd,
    ;
}

/// Law: mapping a value onto the very range it comes from returns the value
/// unchanged.  Any result `r` meeting [`map`]'s contract for coinciding
/// input and output ranges has exactly the value of `x`.
pub proof fn lemma_map_identity(x: Rat, a: Rat, b: Rat, r: Rat)
    requires
        x.wf(),
        a.wf(),
        b.wf(),
        r.wf(),
        cross(b, a) != 0,
        r.is_ratio(map_num(x, a, b, a, b), map_den(x, a, b, a, b)),
    ensures
        r.num * x.den == x.num * r.den,
{
    let nn = map_num(x, a, b, a, b);
    let dd = map_den(x, a, b, a, b);
    lemma_identity_poly(
        a.num as int,
        a.den as int,
        b.den as int,
        x.num as int,
        x.den as int,
        cross(b, a),
        cross(x, a),
    );
    assert(nn * x.den == x.num * dd);
    assert(dd != 0) by (nonlinear_arith)
        requires
            dd == a.den * b.den * cross(b, a) * x.den,
            a.den > 0,
            b.den > 0,
            x.den > 0,
            cross(b, a) != 0,
    ;
    assert(r.num * x.den == x.num * r.den) by (nonlinear_arith)
        requires
            r.num * dd == nn * r.den,
            nn * x.den == x.num * dd,
            dd != 0,
    ;
}

/// Minimum of three integers.
pub open spec fn min3(x: int, y: int, z: int) -> int {
    vstd::math::min(vstd::math::min(x, y), z)
}

/// Ramp over a 120-degree span of hue: rises from 0 at the span's start to
/// 60 in the middle, then falls back to 0.
pub open spec fn hue_ramp(hm: int) -> int {
    60 - abs(hm % 120 - 60)
}

/// Common denominator of the scaled channel quantities below.
pub open spec fn hsv_denom(s: Rat, v: Rat) -> int {
    60 * s.den * v.den
}

/// Chroma (the strongest channel minus the weakest), scaled by [`hsv_denom`].
pub open spec fn hsv_chroma(s: Rat, v: Rat) -> int {
    60 * s.num * v.num
}

/// The intermediate channel for hue `h`, scaled by [`hsv_denom`].
pub open spec fn hsv_mid(h: int, s: Rat, v: Rat) -> int {
    hue_ramp(h % 360) * s.num * v.num
}

/// The amount added to every channel (value minus chroma), scaled by
/// [`hsv_denom`].
pub open spec fn hsv_match(s: Rat, v: Rat) -> int {
    60 * v.num * (s.den - s.num)
}

/// Ceiling of `n / d`, for `d > 0`.
pub open spec fn ceil_div(n: int, d: int) -> int {
    (n + d - 1) / d
}

/// One 8-bit output channel: the channel's exact fraction, scaled to 255
/// and rounded up.
pub open spec fn hsv_level(comp: int, s: Rat, v: Rat) -> int {
    ceil_div(255 * (comp + hsv_match(s, v)), hsv_denom(s, v))
}

/// The exact RGB triple for the hue/saturation/value triple, over six
/// 60-degree hue sectors.
pub open spec fn hsv_rgb_spec(h: int, s: Rat, v: Rat) -> (int, int, int) {
    let c = hsv_level(hsv_chroma(s, v), s, v);
    let x = hsv_level(hsv_mid(h, s, v), s, v);
    let o = hsv_level(0, s, v);
    let sector = (h % 360) / 60;
    if sector == 0 {
        (c, x, o)
    } else if sector == 1 {
        (x, c, o)
    } else if sector == 2 {
        (o, c, x)
    } else if sector == 3 {
        (o, x, c)
    } else if sector == 4 {
        (x, o, c)
    } else {
        (c, o, x)
    }
}

/// Scale the fraction `num / den` (inside the unit interval) to an 8-bit
/// channel, rounding up.
fn scale_ceil(num: i128, den: i128) -> (r: u8)
    requires
        0 < den <= 0x1000000000000000,
        0 <= num <= den,
    ensures
        r as int == ceil_div(255 * num, den as int),
{
    let q = (255 * num + den - 1) / den;
    proof {
        let n = 255 * (num as int) + den - 1;
        lemma_div_pos_is_pos(n, den as int);
        lemma_div_is_ordered(n, 256 * den - 1, den as int);
        lemma_fundamental_div_mod_converse(256 * den - 1, den as int, 255, den as int - 1);
    }
    q as u8
}

/// Convert a hue (in degrees), saturation and value (both rationals in the
/// unit interval) to an RGB triple with 8-bit channels.
///
/// Hues at or beyond 360 degrees wrap around.  Each output channel is the
/// exact channel fraction of the standard six-sector decomposition, scaled
/// by 255 and rounded up to the next integer.
pub fn hsv_to_rgb(hue: u16, sat: Rat, val: Rat) -> (rgb: (u8, u8, u8))
    requires
        sat.wf(),
        val.wf(),
        0 <= sat.num <= sat.den <= RAT_BOUND,
        0 <= val.num <= val.den <= RAT_BOUND,
    ensures
        (rgb.0 as int, rgb.1 as int, rgb.2 as int) == hsv_rgb_spec(hue as int, sat, val),
{
    let hm = hue % 360;
    let sector = hm / 60;
    let rm = (hm % 120) as i128;
    let off = rm - 60;
    let t: i128 = 60 - (if off < 0 {
        -off
    } else {
        off
    });
    proof {
        assert(t as int == hue_ramp((hue as int) % 360));
        lemma_mul_bounds(60 * sat.num as int, val.num as int, 0x3c000000, 0x1000000);
        lemma_mul_bounds(t as int, sat.num as int, 60, 0x1000000);
        lemma_mul_bounds(t as int * sat.num as int, val.num as int, 0x3c000000, 0x1000000);
        lemma_mul_bounds(60 * sat.den as int, val.den as int, 0x3c000000, 0x1000000);
        lemma_mul_bounds(60 * val.num as int, (sat.den - sat.num) as int, 0x3c000000, 0x1000000);
        assert(0 < 60 * sat.den * val.den) by (nonlinear_arith)
            requires
                sat.den > 0,
                val.den > 0,
        ;
    }
    let cs = 60 * sat.num * val.num;
    let xs = t * sat.num * val.num;
    let d = 60 * sat.den * val.den;
    let ms = 60 * val.num * (sat.den - sat.num);
    proof {
        assert(cs + ms == 60 * val.num * sat.den && ms >= 0 && 0 <= xs <= cs) by (nonlinear_arith)
            requires
                cs == 60 * sat.num * val.num,
                xs == t * sat.num * val.num,
                ms == 60 * val.num * (sat.den - sat.num),
                0 <= sat.num <= sat.den,
                0 <= val.num,
                0 <= t <= 60,
        ;
        assert(60 * val.num * sat.den <= d) by (nonlinear_arith)
            requires
                d == 60 * sat.den * val.den,
                0 <= val.num <= val.den,
                0 < sat.den,
        ;
    }
    let (p0, p1, p2): (i128, i128, i128) = if sector == 0 {
        (cs, xs, 0)
    } else if sector == 1 {
        (xs, cs, 0)
    } else if sector == 2 {
        (0, cs, xs)
    } else if sector == 3 {
        (0, xs, cs)
    } else if sector == 4 {
        (xs, 0, cs)
    } else {
        (cs, 0, xs)
    };
    let r0 = scale_ceil(p0 + ms, d);
    let r1 = scale_ceil(p1 + ms, d);
    let r2 = scale_ceil(p2 + ms, d);
    (r0, r1, r2)
}

/// Round `n / d` to the nearest integer (halves round up), for `d > 0`.
pub open spec fn round_ratio(n: int, d: int) -> int {
    (2 * n + d) / (2 * d)
}

/// Fold a hue from `-360..360` into `0..360`.
pub open spec fn wrap360(h: int) -> int {
    if h < 0 {
        h + 360
    } else {
        h
    }
}

/// The hue, in whole degrees in `0..360`, recovered from an RGB triple:
/// computed from whichever channel is strongest (ties prefer red, then
/// green), rounded to the nearest degree, zero for gray.
pub open spec fn rgb_hue(r: int, g: int, b: int) -> int {
    let mx = max3(r, g, b);
    let mn = min3(r, g, b);
    let delta = mx - mn;
    if delta == 0 {
        0
    } else if mx == r {
        wrap360(round_ratio(60 * (g - b), delta))
    } else if mx == g {
        wrap360(round_ratio(60 * (b - r), delta) + 120)
    } else {
        wrap360(round_ratio(60 * (r - g), delta) + 240)
    }
}

/// Round `60 * diff / delta` to the nearest degree, where `|diff| <= delta`.
fn hue_term(diff: i32, delta: i32) -> (q: i32)
    requires
        0 < delta <= 255,
        -delta <= diff <= delta,
    ensures
        q == round_ratio(60 * diff, delta as int),
        -60 <= q <= 60,
{
    // shift by 360 degrees so the dividend is positive, then shift back
    let shifted = 60 * diff + 360 * delta;
    let q360 = (2 * shifted + delta) / (2 * delta);
    proof {
        let n = 2 * (60 * diff) + delta;
        lemma_hoist_over_denominator(n, 360, (2 * delta) as nat);
        assert(2 * (shifted as int) + delta == n + 360 * (2 * delta));
        // bounds of the rounded ratio
        lemma_div_is_ordered(n, 121 * delta, 2 * delta);
        lemma_fundamental_div_mod_converse(121 * delta, 2 * delta, 60, delta as int);
        lemma_div_is_ordered(-119 * delta, n, 2 * delta);
        lemma_fundamental_div_mod_converse(-119 * delta, 2 * delta, -60, delta as int);
    }
    q360 - 360
}

/// Convert an RGB triple to hue (whole degrees in `0..360`), saturation
/// and value (reduced rationals in the unit interval).
///
/// The value is the strongest channel over 255; the saturation is the
/// channel spread over the strongest channel (zero for black); the hue is
/// recovered as in [`rgb_hue`].
pub fn rgb_to_hsv(r: u8, g: u8, b: u8) -> (res: (u16, Rat, Rat))
    ensures
        res.0 as int == rgb_hue(r as int, g as int, b as int),
        0 <= res.0 < 360,
        res.1.wf(),
        res.2.wf(),
        0 <= res.1.num <= res.1.den <= 255,
        0 <= res.2.num <= res.2.den <= 255,
        res.2.is_ratio(max3(r as int, g as int, b as int), 255),
        max3(r as int, g as int, b as int) == 0 ==> res.1.num == 0 && res.1.den == 1,
        max3(r as int, g as int, b as int) != 0 ==> res.1.is_ratio(
            max3(r as int, g as int, b as int) - min3(r as int, g as int, b as int),
            max3(r as int, g as int, b as int),
        ),
        max3(r as int, g as int, b as int) == min3(r as int, g as int, b as int) ==> res.1.num == 0,
{
    let ri = r as i32;
    let gi = g as i32;
    let bi = b as i32;
    let mx = if ri < gi {
        if gi >= bi {
            gi
        } else {
            bi
        }
    } else {
        if ri >= bi {
            ri
        } else {
            bi
        }
    };
    let mn = if ri <= gi {
        if ri <= bi {
            ri
        } else {
            bi
        }
    } else {
        if gi <= bi {
            gi
        } else {
            bi
        }
    };
    let delta = mx - mn;
    let hue: i32 = if delta == 0 {
        0
    } else {
        let (diff, offset) = if mx == ri {
            (gi - bi, 0)
        } else if mx == gi {
            (bi - ri, 120)
        } else {
            (ri - gi, 240)
        };
        let h = hue_term(diff, delta) + offset;
        if h < 0 {
            h + 360
        } else {
            h
        }
    };
    let val = normalize(mx as i128, 255);
    let sat = if mx == 0 {
        Rat { num: 0, den: 1 }
    } else {
        normalize(delta as i128, mx as i128)
    };
    proof {
        let mxi = mx as int;
        let di = delta as int;
        assert(val.num >= 0 && val.num <= val.den) by (nonlinear_arith)
            requires
                val.num * 255 == mxi * val.den,
                0 < val.den,
                0 <= mxi <= 255,
        ;
        if mx != 0 {
            assert(sat.num >= 0 && sat.num <= sat.den) by (nonlinear_arith)
                requires
                    sat.num * mxi == di * sat.den,
                    0 < mxi,
                    0 < sat.den,
                    0 <= di <= mxi,
            ;
        }
    }
    (hue as u16, sat, val)
}

/// The ceiling division lies within one divisor step of the dividend:
/// `d * (q - 1) < n <= d * q` for `q == ceil_div(n, d)`.
proof fn lemma_ceil_div_bounds(n: int, d: int)
    requires
        0 < d,
    ensures
        d * (ceil_div(n, d) - 1) < n <= d * ceil_div(n, d),
{
    let q = ceil_div(n, d);
    lemma_fundamental_div_mod(n + d - 1, d);
    assert(n + d - 1 == d * q + ((n + d - 1) % d));
    assert(d * (q - 1) == d * q - d) by (nonlinear_arith);
}

/// Ceiling division is unchanged by scaling dividend and divisor together.
proof fn lemma_ceil_div_scale(n: int, d: int, k: int)
    requires
        0 < d,
        0 < k,
    ensures
        ceil_div(k * n, k * d) == ceil_div(n, d),
{
    let q = ceil_div(n, d);
    lemma_ceil_div_bounds(n, d);
    assert(k * d * (q - 1) < k * n <= k * d * q && k * d > 0) by (nonlinear_arith)
        requires
            d * (q - 1) < n <= d * q,
            k > 0,
            d > 0,
    ;
    let rr = k * n + k * d - 1 - k * d * q;
    assert(k * n + k * d - 1 == q * (k * d) + rr) by (nonlinear_arith)
        requires
            rr == k * n + k * d - 1 - k * d * q,
    ;
    assert(0 <= rr < k * d) by (nonlinear_arith)
        requires
            k * d * (q - 1) < k * n <= k * d * q,
            rr == k * n + k * d - 1 - k * d * q,
            k * d > 0,
    ;
    lemma_fundamental_div_mod_converse(k * n + k * d - 1, k * d, q, rr);
}

/// Ceiling division is monotone in the dividend.
proof fn lemma_ceil_div_ordered(n1: int, n2: int, d: int)
    requires
        n1 <= n2,
        0 < d,
    ensures
        ceil_div(n1, d) <= ceil_div(n2, d),
{
    lemma_div_is_ordered(n1 + d - 1, n2 + d - 1, d);
}

/// Law (HSV round trip, value): converting hue/saturation/value to RGB and
/// reading the strongest channel back recovers the value to within the
/// ceiling rounding step of 1/255: `v <= max/255 < v + 1/255`.
pub proof fn lemma_hsv_value_round_trip(h: int, s: Rat, v: Rat)
    requires
        s.wf(),
        v.wf(),
        0 <= s.num <= s.den,
        0 <= v.num <= v.den,
    ensures
        ({
            let (r, g, b) = hsv_rgb_spec(h, s, v);
            &&& max3(r, g, b) == ceil_div(255 * v.num, v.den as int)
            &&& 255 * v.num <= max3(r, g, b) * v.den < 255 * v.num + v.den
        }),
{
    let cs = hsv_chroma(s, v);
    let xs = hsv_mid(h, s, v);
    let ms = hsv_match(s, v);
    let dd = hsv_denom(s, v);
    let t = hue_ramp(h % 360);
    assert(0 <= t <= 60) by {
        vstd::arithmetic::div_mod::lemma_mod_pos_bound(h % 360, 120);
    }
    assert(cs + ms == 60 * v.num * s.den && ms >= 0 && 0 <= xs <= cs && dd > 0) by (
    nonlinear_arith)
        requires
            cs == 60 * s.num * v.num,
            xs == t * s.num * v.num,
            ms == 60 * v.num * (s.den - s.num),
            dd == 60 * s.den * v.den,
            0 <= s.num <= s.den,
            0 <= v.num <= v.den,
            0 < s.den,
            0 < v.den,
            0 <= t <= 60,
    ;
    let c = hsv_level(cs, s, v);
    let x = hsv_level(xs, s, v);
    let o = hsv_level(0, s, v);
    lemma_ceil_div_ordered(255 * (xs + ms), 255 * (cs + ms), dd);
    lemma_ceil_div_ordered(255 * (0 + ms), 255 * (cs + ms), dd);
    let (r, g, b) = hsv_rgb_spec(h, s, v);
    assert(max3(r, g, b) == c);
    // the strongest channel is the exact ceiling of 255 * v
    let k = 60 * s.den;
    assert(255 * (cs + ms) == k * (255 * v.num) && dd == k * v.den && k > 0) by (nonlinear_arith)
        requires
            cs + ms == 60 * v.num * s.den,
            dd == 60 * s.den * v.den,
            k == 60 * s.den,
            s.den > 0,
    ;
    lemma_ceil_div_scale(255 * v.num, v.den as int, k);
    assert(c == ceil_div(255 * v.num, v.den as int));
    lemma_ceil_div_bounds(255 * v.num, v.den as int);
    assert(v.den * (c - 1) == v.den * c - v.den) by (nonlinear_arith);
    assert(max3(r, g, b) * v.den == v.den * c) by (nonlinear_arith)
        requires
            max3(r, g, b) == c,
    ;
}

/// Law (HSV round trip, weakest channel): the weakest RGB channel is the
/// exact ceiling of `255 * v * (1 - s)`, so converting back recovers the
/// channel spread (and with it the saturation) to within the ceiling
/// rounding step on each end.
pub proof fn lemma_hsv_min_round_trip(h: int, s: Rat, v: Rat)
    requires
        s.wf(),
        v.wf(),
        0 <= s.num <= s.den,
        0 <= v.num <= v.den,
    ensures
        ({
            let (r, g, b) = hsv_rgb_spec(h, s, v);
            let p = v.num * (s.den - s.num);
            let q = s.den * v.den;
            &&& min3(r as int, g as int, b as int) == ceil_div(255 * p, q)
            &&& 255 * p <= min3(r as int, g as int, b as int) * q < 255 * p + q
        }),
{
    let cs = hsv_chroma(s, v);
    let xs = hsv_mid(h, s, v);
    let ms = hsv_match(s, v);
    let dd = hsv_denom(s, v);
    let t = hue_ramp(h % 360);
    let p = v.num * (s.den - s.num);
    let q = s.den * v.den;
    assert(0 <= t <= 60) by {
        vstd::arithmetic::div_mod::lemma_mod_pos_bound(h % 360, 120);
    }
    assert(ms == 60 * p && dd == 60 * q && ms >= 0 && 0 <= xs <= cs && dd > 0 && q > 0) by (
    nonlinear_arith)
        requires
            cs == 60 * s.num * v.num,
            xs == t * s.num * v.num,
            ms == 60 * v.num * (s.den - s.num),
            dd == 60 * s.den * v.den,
            p == v.num * (s.den - s.num),
            q == s.den * v.den,
            0 <= s.num <= s.den,
            0 <= v.num <= v.den,
            0 < s.den,
            0 < v.den,
            0 <= t <= 60,
    ;
    let c = hsv_level(cs, s, v);
    let x = hsv_level(xs, s, v);
    let o = hsv_level(0, s, v);
    lemma_ceil_div_ordered(255 * (0 + ms), 255 * (xs + ms), dd);
    lemma_ceil_div_ordered(255 * (0 + ms), 255 * (cs + ms), dd);
    let (r, g, b) = hsv_rgb_spec(h, s, v);
    assert(min3(r, g, b) == o);
    assert(255 * (0 + ms) == 60 * (255 * p)) by (nonlinear_arith)
        requires
            ms == 60 * p,
    ;
    lemma_ceil_div_scale(255 * p, q, 60);
    assert(o == ceil_div(255 * p, q));
    lemma_ceil_div_bounds(255 * p, q);
    assert(q * (o - 1) == q * o - q) by (nonlinear_arith);
    assert(min3(r, g, b) * q == q * o) by (nonlinear_arith)
        requires
            min3(r, g, b) == o,
    ;
}

/// For a channel `x` that is the ceiling of `255 * t / 60` with `t` in
/// whole degrees, rounding `60 * x / 255` back to the nearest degree
/// recovers `t` exactly.
proof fn lemma_hue_term_recovers(t: int, x: int)
    requires
        0 <= t <= 60,
        60 * (x - 1) < 255 * t <= 60 * x,
    ensures
        round_ratio(60 * x, 255) == t,
        round_ratio(-(60 * x), 255) == -t,
{
    // 510 * t <= 120 * x <= 510 * t + 118
    assert(120 * x + 255 == t * 510 + (120 * x + 255 - 510 * t));
    lemma_fundamental_div_mod_converse(120 * x + 255, 510, t, 120 * x + 255 - 510 * t);
    assert(-(120 * x) + 255 == (-t) * 510 + (-(120 * x) + 255 + 510 * t));
    lemma_fundamental_div_mod_converse(
        -(120 * x) + 255,
        510,
        -t,
        -(120 * x) + 255 + 510 * t,
    );
}

/// Law (HSV round trip, hue): for a fully saturated, full-value color the
/// hue in `0..360` is recovered exactly by the reverse conversion.
pub proof fn lemma_hsv_hue_round_trip_saturated(h: int, s: Rat, v: Rat)
    requires
        s.wf(),
        v.wf(),
        s.num == s.den,
        v.num == v.den,
        0 <= h < 360,
    ensures
        ({
            let (r, g, b) = hsv_rgb_spec(h, s, v);
            rgb_hue(r, g, b) == h
        }),
{
    let cs = hsv_chroma(s, v);
    let xs = hsv_mid(h, s, v);
    let ms = hsv_match(s, v);
    let dd = hsv_denom(s, v);
    vstd::arithmetic::div_mod::lemma_small_mod(h as nat, 360nat);
    let t = hue_ramp(h);
    let k = s.den * v.den;
    assert(ms == 0 && cs == 60 * k && xs == t * k && dd == 60 * k && k > 0) by (nonlinear_arith)
        requires
            cs == 60 * s.num * v.num,
            xs == t * s.num * v.num,
            ms == 60 * v.num * (s.den - s.num),
            dd == 60 * s.den * v.den,
            k == s.den * v.den,
            s.num == s.den,
            v.num == v.den,
            s.den > 0,
            v.den > 0,
    ;
    // the three channel levels: full, ramp, zero
    assert(255 * (cs + ms) == (60 * k) * 255 && dd == (60 * k) * 1) by (nonlinear_arith)
        requires
            cs == 60 * k,
            ms == 0,
            dd == 60 * k,
    ;
    lemma_ceil_div_scale(255, 1, 60 * k);
    assert(hsv_level(cs, s, v) == ceil_div(255, 1));
    assert(ceil_div(255, 1) == 255) by {
        lemma_fundamental_div_mod_converse(255, 1, 255, 0);
    }
    assert(0 <= t <= 60) by {
        vstd::arithmetic::div_mod::lemma_mod_pos_bound(h, 120);
    }
    assert(255 * (xs + ms) == k * (255 * t) && dd == k * 60) by (nonlinear_arith)
        requires
            xs == t * k,
            ms == 0,
            dd == 60 * k,
    ;
    lemma_ceil_div_scale(255 * t, 60, k);
    let x = ceil_div(255 * t, 60);
    assert(hsv_level(xs, s, v) == x);
    lemma_ceil_div_bounds(255 * t, 60);
    assert(60 * (x - 1) < 255 * t <= 60 * x);
    assert(0 <= x <= 255);
    assert(x == 255 <==> t == 60);
    assert(hsv_level(0, s, v) == ceil_div(0 + 255 * ms, dd));
    assert(ceil_div(0, dd) == 0) by {
        lemma_fundamental_div_mod_converse(dd - 1, dd, 0, dd - 1);
    }
    let c_lvl = hsv_level(cs, s, v);
    let x_lvl = hsv_level(xs, s, v);
    let o_lvl = hsv_level(0, s, v);
    assert(c_lvl == 255 && x_lvl == x && o_lvl == 0);
    lemma_hue_term_recovers(t, x);
    let (r, g, b) = hsv_rgb_spec(h, s, v);
    let sector = h / 60;
    if h < 60 {
        // (255, x, 0): the red channel leads; t counts up from 0
        lemma_fundamental_div_mod_converse(h, 60, 0, h);
        vstd::arithmetic::div_mod::lemma_small_mod(h as nat, 120nat);
        assert(t == h);
        assert((r, g, b) == (255int, x, 0int));
        assert(rgb_hue(r, g, b) == wrap360(round_ratio(60 * x, 255)));
        assert(rgb_hue(r, g, b) == h);
    } else if h < 120 {
        // (x, 255, 0): the green channel leads; t counts down to 60
        lemma_fundamental_div_mod_converse(h, 60, 1, h - 60);
        vstd::arithmetic::div_mod::lemma_small_mod(h as nat, 120nat);
        assert(t == 120 - h);
        assert((r, g, b) == (x, 255int, 0int));
        if x == 255 {
            // the boundary hue 60: a three-way tie resolved toward red
            assert(t == 60 && h == 60);
            assert(rgb_hue(r, g, b) == wrap360(round_ratio(60int * 255, 255)));
            assert(round_ratio(60int * 255, 255) == 60);
            assert(rgb_hue(r, g, b) == h);
        } else {
            assert(rgb_hue(r, g, b) == wrap360(round_ratio(60 * (0 - x), 255) + 120));
            assert(60 * (0 - x) == -(60 * x)) by (nonlinear_arith);
            assert(rgb_hue(r, g, b) == h);
        }
    } else if h < 180 {
        // (0, 255, x): the green channel leads; t counts up from 120
        lemma_fundamental_div_mod_converse(h, 60, 2, h - 120);
        lemma_fundamental_div_mod_converse(h, 120, 1, h - 120);
        assert(t == h - 120);
        assert((r, g, b) == (0int, 255int, x));
        assert(rgb_hue(r, g, b) == wrap360(round_ratio(60 * (x - 0), 255) + 120));
        assert(rgb_hue(r, g, b) == h);
    } else if h < 240 {
        // (0, x, 255): the blue channel leads; t counts down to 180
        lemma_fundamental_div_mod_converse(h, 60, 3, h - 180);
        lemma_fundamental_div_mod_converse(h, 120, 1, h - 120);
        assert(t == 240 - h);
        assert((r, g, b) == (0int, x, 255int));
        if x == 255 {
            // the boundary hue 180: a tie between green and blue resolved
            // toward green
            assert(t == 60 && h == 180);
            assert(rgb_hue(r, g, b) == wrap360(round_ratio(60 * (255 - 0), 255) + 120));
            assert(round_ratio(60int * 255, 255) == 60);
            assert(rgb_hue(r, g, b) == h);
        } else {
            assert(rgb_hue(r, g, b) == wrap360(round_ratio(60 * (0 - x), 255) + 240));
            assert(60 * (0 - x) == -(60 * x)) by (nonlinear_arith);
            assert(rgb_hue(r, g, b) == h);
        }
    } else if h < 300 {
        // (x, 0, 255): the blue channel leads; t counts up from 240
        lemma_fundamental_div_mod_converse(h, 60, 4, h - 240);
        lemma_fundamental_div_mod_converse(h, 120, 2, h - 240);
        assert(t == h - 240);
        assert(t < 60 && x < 255);
        assert((r, g, b) == (x, 0int, 255int));
        assert(rgb_hue(r, g, b) == wrap360(round_ratio(60 * (x - 0), 255) + 240));
        assert(rgb_hue(r, g, b) == h);
    } else {
        // (255, 0, x): the red channel leads again; t counts down to 360
        lemma_fundamental_div_mod_converse(h, 60, 5, h - 300);
        lemma_fundamental_div_mod_converse(h, 120, 2, h - 240);
        assert(t == 360 - h);
        assert((r, g, b) == (255int, 0int, x));
        assert(rgb_hue(r, g, b) == wrap360(round_ratio(60 * (0 - x), 255)));
        assert(60 * (0 - x) == -(60 * x)) by (nonlinear_arith);
        assert(rgb_hue(r, g, b) == h);
    }
}

/// Law (HSV round trip, gray): with zero saturation every output channel is
/// equal, so converting back yields hue 0 and a zero channel spread (hence
/// zero saturation).
pub proof fn lemma_hsv_gray_round_trip(h: int, s: Rat, v: Rat)
    requires
        s.wf(),
        v.wf(),
        s.num == 0,
        0 <= v.num <= v.den,
    ensures
        ({
            let (r, g, b) = hsv_rgb_spec(h, s, v);
            r == g && g == b && rgb_hue(r, g, b) == 0
        }),
{
    let t = hue_ramp(h % 360);
    assert(hsv_chroma(s, v) == 0 && hsv_mid(h, s, v) == 0) by (nonlinear_arith)
        requires
            hsv_chroma(s, v) == 60 * s.num * v.num,
            hsv_mid(h, s, v) == t * s.num * v.num,
            s.num == 0,
    ;
}

/// Law: normalizing to the unit range is exactly mapping onto `0..1`; the
/// fraction promised by [`norm`] is the fraction promised by [`map`] with
/// the output range `0..1`.
pub proof fn lemma_norm_is_map_unit(x: Rat, a: Rat, b: Rat)
    ensures
        map_num(x, a, b, rat_zero(), rat_one()) == norm_num(x, a, b),
        map_den(x, a, b, rat_zero(), rat_one()) == norm_den(x, a, b),
{
    assert(map_num(x, a, b, rat_zero(), rat_one()) == norm_num(x, a, b)) by (nonlinear_arith)
        requires
            map_num(x, a, b, rat_zero(), rat_one()) == 0 * 1 * cross(b, a) * x.den + (1 * 1 - 0 * 1)
                * cross(x, a) * b.den,
            norm_num(x, a, b) == cross(x, a) * b.den,
    ;
    assert(map_den(x, a, b, rat_zero(), rat_one()) == norm_den(x, a, b)) by (nonlinear_arith)
        requires
            map_den(x, a, b, rat_zero(), rat_one()) == 1 * 1 * cross(b, a) * x.den,
            norm_den(x, a, b) == cross(b, a) * x.den,
    ;
}

} // verus!
