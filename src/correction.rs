use vstd::prelude::*;
use vstd::arithmetic::div_mod::{lemma_fundamental_div_mod, lemma_sub_mod_noop};
use crate::angle::{norm, normalize, CIRCLE, QUARTER};
use crate::trig::{
    arc_rsine, arc_sine_of, cosine_of, fraction_away, fraction_of, int_sqrt, is_root, isqrt,
    lemma_arc_bounds, rcosine, rsine, scale, scale_away, sine_of, RADIUS,
};

verus! {

/// Epicycle units in one degree of circumference.
pub const EPICYCLE_UNIT: i64 = 1_000_000;

/// The circumference of the deferent, 360 degrees, in epicycle units.
pub const DEFERENT: i64 = 360_000_000;

/// An epicycle whose circumference shrinks from `even`, at conjunction and
/// opposition, to `odd`, at quadrature; both in millionths of a degree.
#[derive(Clone, Copy, Debug, PartialEq, Eq)]
pub struct Epicycle {
    pub even: i64,
    pub odd: i64,
}

impl Epicycle {
    /// Both circumferences are non-negative and smaller than the deferent.
    pub open spec fn wf(&self) -> bool {
        0 <= self.even < DEFERENT && 0 <= self.odd < DEFERENT
    }
}

pub open spec fn abs(x: int) -> int {
    if x < 0 { -x } else { x }
}

pub open spec fn min(a: int, b: int) -> int {
    if a <= b { a } else { b }
}

pub open spec fn max(a: int, b: int) -> int {
    if a <= b { b } else { a }
}

/// The epicycle's circumference at anomaly `a`: `even` less the difference
/// of the two sizes in the proportion of `|sin a|` to the radius.
pub open spec fn size_of(ep: Epicycle, a: int) -> int {
    ep.even - fraction_of(ep.even - ep.odd, abs(sine_of(a)), RADIUS as int)
}

/// The circumference of the epicycle at an anomaly, interpolated between its
/// two sizes by the absolute sine of the anomaly.
pub fn rectified_size(ep: &Epicycle, anomaly: i64) -> (r: i64)
    requires
        ep.wf(),
    ensures
        r == size_of(*ep, anomaly as int),
        min(ep.even as int, ep.odd as int) <= r <= max(ep.even as int, ep.odd as int),
{
    let s: i64 = rsine(anomaly);
    let abs_s: i64 = if s < 0 { -s } else { s };
    ep.even - scale(ep.even - ep.odd, abs_s, RADIUS)
}

/// Every rectified size lies between the epicycle's two sizes.
pub proof fn lemma_size_between(ep: Epicycle, a: int)
    requires
        ep.wf(),
    ensures
        min(ep.even as int, ep.odd as int) <= size_of(ep, a) <= max(ep.even as int, ep.odd as int),
{
    crate::trig::lemma_sine_bounds(a);
    crate::trig::lemma_fraction_bounds(ep.even - ep.odd, abs(sine_of(a)), RADIUS as int);
}

/// The equation of the centre of a body at `mean` whose apogee stands at
/// `apogee`: the arc whose sine is the rectified epicycle's share of the
/// deferent times the sine of the anomaly (rounded away from zero, so that a
/// nonzero sine gives a nonzero correction of its sign).
pub open spec fn manda_of(mean: int, apogee: int, ep: Epicycle) -> int {
    let a = norm(mean - apogee);
    arc_sine_of(fraction_away(sine_of(a), size_of(ep, a), DEFERENT as int))
}

/// The anomaly `norm(x - y)`, computed without overflow.
fn anomaly_between(x: i64, y: i64) -> (r: i64)
    ensures
        r == norm(x - y),
        0 <= r < CIRCLE,
{
    let r: i64 = normalize(normalize(x) - normalize(y));
    proof {
        lemma_sub_mod_noop(x as int, y as int, CIRCLE as int);
    }
    r
}

/// The manda correction of a body at `mean_lon` with its apogee at `apogee`.
pub fn manda_correction(mean_lon: i64, apogee: i64, ep: &Epicycle) -> (r: i64)
    requires
        ep.wf(),
    ensures
        r == manda_of(mean_lon as int, apogee as int, *ep),
        -QUARTER <= r <= QUARTER,
        sine_of(mean_lon - apogee) == 0 ==> r == 0,
        ep.even > 0 && ep.odd > 0 && sine_of(mean_lon - apogee) > 0 ==> r > 0,
        ep.even > 0 && ep.odd > 0 && sine_of(mean_lon - apogee) < 0 ==> r < 0,
{
    let anomaly: i64 = anomaly_between(mean_lon, apogee);
    let size: i64 = rectified_size(ep, anomaly);
    let sin_term: i64 = scale_away(rsine(anomaly), size, DEFERENT);
    proof {
        crate::trig::lemma_sine_bounds(anomaly as int);
        assert(sine_of(anomaly as int) == sine_of(mean_lon - apogee)) by {
            crate::angle::lemma_norm_range(mean_lon - apogee);
            vstd::arithmetic::div_mod::lemma_small_mod(anomaly as nat, CIRCLE as nat);
        }
    }
    arc_rsine(sin_term)
}

/// `v` held within `[-m, m]`.
pub open spec fn clamp(v: int, m: int) -> int {
    if v > m { m } else if v < -m { -m } else { v }
}

/// The sine, before the arc is taken, of the conjunction correction of a
/// body at `body` whose conjunction point stands at `point`: the sine
/// component of the epicycle's radius over the hypotenuse that it forms
/// with the deferent, held within the radius. The sine component and the
/// quotient are rounded away from zero, so that a nonzero sine of the
/// anomaly gives a nonzero correction of its sign.
pub open spec fn sighra_sine_of(body: int, point: int, ep: Epicycle) -> int {
    let a = norm(point - body);
    let r = fraction_of(RADIUS as int, size_of(ep, a), DEFERENT as int);
    let doh = fraction_away(sine_of(a), r, RADIUS as int);
    let koti = fraction_of(cosine_of(a), r, RADIUS as int);
    let karna = int_sqrt((RADIUS + koti) * (RADIUS + koti) + doh * doh);
    clamp(fraction_away(doh, RADIUS as int, karna), RADIUS as int)
}

/// The conjunction correction of a body at `body` whose conjunction point
/// stands at `point`.
pub open spec fn sighra_of(body: int, point: int, ep: Epicycle) -> int {
    arc_sine_of(sighra_sine_of(body, point, ep))
}

/// The conjunction correction never exceeds a right angle, and the sine it
/// is taken from never exceeds the radius.
pub proof fn lemma_sighra_bounded(body: int, point: int, ep: Epicycle)
    ensures
        -RADIUS <= sighra_sine_of(body, point, ep) <= RADIUS,
        -QUARTER <= sighra_of(body, point, ep) <= QUARTER,
{
    lemma_arc_bounds(sighra_sine_of(body, point, ep));
}

/// The conjunction correction of a body at `body_lon` whose conjunction
/// point (the mean Sun for the outer bodies, the body's own mean motion for
/// the inner ones) stands at `point`.
pub fn sighra_correction(body_lon: i64, point: i64, ep: &Epicycle) -> (r: i64)
    requires
        ep.wf(),
    ensures
        r == sighra_of(body_lon as int, point as int, *ep),
        -QUARTER <= r <= QUARTER,
        sine_of(point - body_lon) == 0 ==> r == 0,
        ep.even > 0 && ep.odd > 0 && sine_of(point - body_lon) > 0 ==> r > 0,
        ep.even > 0 && ep.odd > 0 && sine_of(point - body_lon) < 0 ==> r < 0,
{
    let anomaly: i64 = anomaly_between(point, body_lon);
    let size: i64 = rectified_size(ep, anomaly);
    let r: i64 = scale(RADIUS, size, DEFERENT);
    proof {
        lemma_fundamental_div_mod(RADIUS * size, DEFERENT as int);
        assert(r < RADIUS) by (nonlinear_arith)
            requires
                r * DEFERENT <= RADIUS * size,
                size < DEFERENT,
                r >= 0;
        if size > 0 {
            assert(r >= 1) by (nonlinear_arith)
                requires
                    r * DEFERENT <= RADIUS * size,
                    RADIUS * size < r * DEFERENT + DEFERENT,
                    size >= 1;
        }
        crate::trig::lemma_sine_bounds(anomaly as int);
        assert(sine_of(anomaly as int) == sine_of(point - body_lon)) by {
            crate::angle::lemma_norm_range(point - body_lon);
            vstd::arithmetic::div_mod::lemma_small_mod(anomaly as nat, CIRCLE as nat);
        }
    }
    let doh: i64 = scale_away(rsine(anomaly), r, RADIUS);
    let koti: i64 = scale(rcosine(anomaly), r, RADIUS);
    let base: i128 = (RADIUS + koti) as i128;
    let d: i128 = doh as i128;
    proof {
        assert(0 < base * base <= 4 * RADIUS * RADIUS) by (nonlinear_arith)
            requires 0 < base <= 2 * RADIUS;
        assert(0 <= d * d <= RADIUS * RADIUS) by (nonlinear_arith)
            requires -RADIUS <= d <= RADIUS;
    }
    let n: i128 = base * base + d * d;
    let karna: u64 = isqrt(n as u128);
    proof {
        assert(is_root(karna as int, n as int));
        if karna == 0 {
            assert((karna + 1) * (karna + 1) == 1) by (nonlinear_arith)
                requires karna == 0;
            assert(n < 1);
        }
    }
    let k: i128 = karna as i128;
    let wide: i128 = if d >= 0 { d } else { -d };
    proof {
        assert(0 <= wide * RADIUS <= RADIUS * RADIUS) by (nonlinear_arith)
            requires 0 <= wide <= RADIUS;
        if wide > 0 {
            assert(wide * RADIUS >= 1) by (nonlinear_arith) requires wide >= 1;
            lemma_up(wide * RADIUS, k as int);
        }
        if wide == 0 {
            assert(wide * RADIUS == 0);
            vstd::arithmetic::div_mod::lemma_small_mod((k - 1) as nat, k as nat);
            assert((k - 1) as int / (k as int) == 0) by { vstd::arithmetic::div_mod::lemma_basic_div(k - 1, k as int); }
        }
        assert(RADIUS * wide == wide * RADIUS) by (nonlinear_arith);
    }
    let q: i128 = (wide * (RADIUS as i128) + k - 1) / k;
    let sine_val: i128 = if d >= 0 { q } else { -q };
    let clamped: i64 = if sine_val > RADIUS as i128 {
        RADIUS
    } else if sine_val < -(RADIUS as i128) {
        -RADIUS
    } else {
        sine_val as i64
    };
    arc_rsine(clamped)
}

/// A positive numerator rounded up over a positive denominator is positive.
proof fn lemma_up(a: int, d: int)
    requires
        1 <= a,
        1 <= d,
    ensures
        (a + d - 1) / d >= 1,
{
    vstd::arithmetic::div_mod::lemma_div_is_ordered(d, a + d - 1, d);
    vstd::arithmetic::div_mod::lemma_div_by_multiple(1, d);
}

} // verus!
