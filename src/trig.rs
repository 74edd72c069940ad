use vstd::prelude::*;
use vstd::arithmetic::div_mod::{
    lemma_div_is_ordered, lemma_div_by_multiple, lemma_div_pos_is_pos, lemma_fundamental_div_mod,
};
use vstd::arithmetic::mul::{lemma_mul_inequality, lemma_mul_nonnegative};
use crate::angle::{norm, normalize, CIRCLE, HALF, QUARTER};

verus! {

/// The sine-table radius, 3438 units, held in millionths of a unit: every
/// sine is given in these fine units of the radius.
pub const RADIUS: i64 = 3_438_000_000;

/// One, in the fixed point of the sine series (eighteen decimals).
pub const ONE: i128 = 1_000_000_000_000_000_000;

/// Pi, in the fixed point of the sine series.
pub const PI_ONE: i128 = 3_141_592_653_589_793_238;

/// `y * x / z` lies in `[0, y]` when `x` lies in `[0, z]`.
proof fn lemma_scaled_fraction(x: int, y: int, z: int)
    requires
        0 <= x <= z,
        0 < z,
        0 <= y,
    ensures
        0 <= y * x / z <= y,
{
    assert(x * y == y * x) by (nonlinear_arith);
    lemma_mul_inequality(x, z, y);
    lemma_mul_nonnegative(x, y);
    lemma_div_is_ordered(x * y, z * y, z);
    assert(z * y == y * z) by (nonlinear_arith);
    lemma_div_by_multiple(y, z);
    lemma_div_pos_is_pos(x * y, z);
}

/// `a / d <= b` whenever `a <= b * d`.
proof fn lemma_div_at_most(a: int, b: int, d: int)
    requires
        0 < d,
        0 <= b,
        a <= b * d,
    ensures
        a / d <= b,
{
    lemma_div_is_ordered(a, b * d, d);
    lemma_div_by_multiple(b, d);
}

/// An angle of the first quadrant, in radians, in the series' fixed point.
pub open spec fn radians(t: int) -> int {
    t * (PI_ONE as int) / (HALF as int)
}

/// One step of the sine series in Horner form: `1 - x2 * h / k`.
pub open spec fn series_step(x2: int, h: int, k: int) -> int {
    (ONE as int) - x2 * h / (k * ONE)
}

/// `sin x / x` for `x2 = x * x`, by its Taylor series up to the term of
/// degree sixteen, in the series' fixed point.
pub open spec fn sine_series(x2: int) -> int {
    let h7 = series_step(x2, ONE as int, 272);
    let h6 = series_step(x2, h7, 210);
    let h5 = series_step(x2, h6, 156);
    let h4 = series_step(x2, h5, 110);
    let h3 = series_step(x2, h4, 72);
    let h2 = series_step(x2, h3, 42);
    let h1 = series_step(x2, h2, 20);
    series_step(x2, h1, 6)
}

/// The sine of `t` in `[0, 90]` degrees, in fine units of the radius, held
/// within the radius.
pub open spec fn quarter_sine(t: int) -> int {
    let x = radians(t);
    let s = x * sine_series(x * x / (ONE as int)) / (ONE as int) * (RADIUS as int) / (ONE as int);
    if s > RADIUS { RADIUS as int } else { s }
}

/// The sine of an angle `a` in `[0, 360)` degrees, by quadrant.
pub open spec fn turn_sine(a: int) -> int {
    if a <= QUARTER { quarter_sine(a) }
    else if a <= HALF { quarter_sine(HALF - a) }
    else if a <= HALF + QUARTER { -quarter_sine(a - HALF) }
    else { -quarter_sine(CIRCLE - a) }
}

/// The sine of any angle, in fine units of the radius.
pub open spec fn sine_of(a: int) -> int {
    turn_sine(norm(a))
}

/// The cosine of any angle: the sine a right angle further on.
pub open spec fn cosine_of(a: int) -> int {
    sine_of(norm(a) + QUARTER)
}

fn step(x2: i128, h: i128, k: i128) -> (r: i128)
    requires
        0 <= x2 <= 3 * ONE,
        0 <= h <= ONE,
        6 <= k <= 272,
    ensures
        r == series_step(x2 as int, h as int, k as int),
        0 <= r <= ONE,
{
    proof {
        assert(0 <= x2 * h <= 3 * ONE * ONE) by (nonlinear_arith)
            requires 0 <= x2 <= 3 * ONE, 0 <= h <= ONE;
        assert(0 <= x2 * h <= ONE * (k * ONE)) by (nonlinear_arith)
            requires 0 <= x2 <= 3 * ONE, 0 <= h <= ONE, 6 <= k;
        assert(0 < k * ONE) by (nonlinear_arith) requires 6 <= k;
        lemma_div_at_most(x2 * h, ONE as int, k * ONE);
        lemma_div_pos_is_pos(x2 * h, k * ONE);
    }
    ONE - x2 * h / (k * ONE)
}

proof fn lemma_quarter_parts(t: int)
    requires
        0 <= t <= QUARTER,
    ensures
        0 <= radians(t) <= PI_ONE / 2,
        0 <= radians(t) * radians(t) / (ONE as int) <= 3 * ONE,
{
    let x = radians(t);
    assert(0 <= t * PI_ONE <= (PI_ONE / 2) * HALF) by (nonlinear_arith)
        requires 0 <= t <= QUARTER;
    lemma_div_at_most(t * PI_ONE, PI_ONE / 2, HALF as int);
    lemma_div_pos_is_pos(t * PI_ONE, HALF as int);
    assert(0 <= x * x <= (3 * ONE) * ONE) by (nonlinear_arith)
        requires 0 <= x <= PI_ONE / 2;
    lemma_div_at_most(x * x, 3 * ONE, ONE as int);
    lemma_div_pos_is_pos(x * x, ONE as int);
}

proof fn lemma_series_bounds(x2: int)
    requires
        0 <= x2 <= 3 * ONE,
    ensures
        0 <= sine_series(x2) <= ONE,
{
    lemma_step_bounds(x2, ONE as int, 272);
    let h7 = series_step(x2, ONE as int, 272);
    lemma_step_bounds(x2, h7, 210);
    let h6 = series_step(x2, h7, 210);
    lemma_step_bounds(x2, h6, 156);
    let h5 = series_step(x2, h6, 156);
    lemma_step_bounds(x2, h5, 110);
    let h4 = series_step(x2, h5, 110);
    lemma_step_bounds(x2, h4, 72);
    let h3 = series_step(x2, h4, 72);
    lemma_step_bounds(x2, h3, 42);
    let h2 = series_step(x2, h3, 42);
    lemma_step_bounds(x2, h2, 20);
    let h1 = series_step(x2, h2, 20);
    lemma_step_bounds(x2, h1, 6);
}

proof fn lemma_step_bounds(x2: int, h: int, k: int)
    requires
        0 <= x2 <= 3 * ONE,
        0 <= h <= ONE,
        6 <= k,
    ensures
        0 <= series_step(x2, h, k) <= ONE,
{
    assert(0 <= x2 * h <= ONE * (k * ONE)) by (nonlinear_arith)
        requires 0 <= x2 <= 3 * ONE, 0 <= h <= ONE, 6 <= k;
    assert(0 < k * ONE) by (nonlinear_arith) requires 6 <= k;
    lemma_div_at_most(x2 * h, ONE as int, k * ONE);
    lemma_div_pos_is_pos(x2 * h, k * ONE);
}

proof fn lemma_quarter_sine_bounds(t: int)
    requires
        0 <= t <= QUARTER,
    ensures
        0 <= quarter_sine(t) <= RADIUS,
        t == 0 ==> quarter_sine(t) == 0,
{
    lemma_quarter_parts(t);
    let x = radians(t);
    let h = sine_series(x * x / (ONE as int));
    lemma_series_bounds(x * x / (ONE as int));
    lemma_mul_nonnegative(x, h);
    lemma_div_pos_is_pos(x * h, ONE as int);
    lemma_mul_nonnegative(x * h / (ONE as int), RADIUS as int);
    lemma_div_pos_is_pos(x * h / (ONE as int) * RADIUS, ONE as int);
    if t == 0 {
        assert(x == 0);
        assert(x * h == 0);
    }
}

fn quarter_rsine(t: i64) -> (r: i64)
    requires
        0 <= t <= QUARTER,
    ensures
        r == quarter_sine(t as int),
        0 <= r <= RADIUS,
{
    proof {
        lemma_quarter_parts(t as int);
        lemma_quarter_sine_bounds(t as int);
        assert(0 <= t * PI_ONE <= QUARTER * PI_ONE) by (nonlinear_arith)
            requires 0 <= t <= QUARTER;
    }
    let x: i128 = (t as i128) * PI_ONE / (HALF as i128);
    proof {
        assert(0 <= x * x <= (PI_ONE / 2) * (PI_ONE / 2)) by (nonlinear_arith)
            requires 0 <= x <= PI_ONE / 2;
    }
    let x2: i128 = x * x / ONE;
    let h7: i128 = step(x2, ONE, 272);
    let h6: i128 = step(x2, h7, 210);
    let h5: i128 = step(x2, h6, 156);
    let h4: i128 = step(x2, h5, 110);
    let h3: i128 = step(x2, h4, 72);
    let h2: i128 = step(x2, h3, 42);
    let h1: i128 = step(x2, h2, 20);
    let h0: i128 = step(x2, h1, 6);
    proof {
        assert(0 <= x * h0 <= (PI_ONE / 2) * ONE) by (nonlinear_arith)
            requires 0 <= x <= PI_ONE / 2, 0 <= h0 <= ONE;
        lemma_div_at_most(x * h0, PI_ONE / 2, ONE as int);
        lemma_div_pos_is_pos(x * h0, ONE as int);
        let y = x * h0 / (ONE as int);
        assert(0 <= y * RADIUS <= (PI_ONE / 2) * RADIUS) by (nonlinear_arith)
            requires 0 <= y <= PI_ONE / 2;
    }
    let s: i128 = x * h0 / ONE * (RADIUS as i128) / ONE;
    if s > RADIUS as i128 { RADIUS } else { s as i64 }
}

proof fn lemma_turn_sine_bounds(a: int)
    requires
        0 <= a < CIRCLE,
    ensures
        -RADIUS <= turn_sine(a) <= RADIUS,
{
    if a <= QUARTER {
        lemma_quarter_sine_bounds(a);
    } else if a <= HALF {
        lemma_quarter_sine_bounds(HALF - a);
    } else if a <= HALF + QUARTER {
        lemma_quarter_sine_bounds(a - HALF);
    } else {
        lemma_quarter_sine_bounds(CIRCLE - a);
    }
}

/// The sine of an angle, in fine units of the radius.
pub fn rsine(angle: i64) -> (r: i64)
    ensures
        r == sine_of(angle as int),
        -RADIUS <= r <= RADIUS,
{
    let a: i64 = normalize(angle);
    proof {
        lemma_turn_sine_bounds(a as int);
    }
    if a <= QUARTER {
        quarter_rsine(a)
    } else if a <= HALF {
        quarter_rsine(HALF - a)
    } else if a <= HALF + QUARTER {
        -quarter_rsine(a - HALF)
    } else {
        -quarter_rsine(CIRCLE - a)
    }
}

/// The cosine of an angle, in fine units of the radius.
pub fn rcosine(angle: i64) -> (r: i64)
    ensures
        r == cosine_of(angle as int),
        -RADIUS <= r <= RADIUS,
{
    rsine(normalize(angle) + QUARTER)
}

/// The sine of zero is zero.
pub proof fn lemma_sine_zero()
    ensures
        sine_of(0) == 0,
{
    assert(norm(0) == 0);
    lemma_quarter_sine_bounds(0);
}

/// Every sine and cosine lies within the radius.
pub proof fn lemma_sine_bounds(a: int)
    ensures
        -RADIUS <= sine_of(a) <= RADIUS,
        -RADIUS <= cosine_of(a) <= RADIUS,
{
    crate::angle::lemma_norm_range(a);
    crate::angle::lemma_norm_range(norm(a) + QUARTER);
    lemma_turn_sine_bounds(norm(a));
    lemma_turn_sine_bounds(norm(norm(a) + QUARTER));
}

/// The least angle in `(lo, hi]` whose sine reaches `v`, found by halving
/// (`hi` where none does).
pub open spec fn arc_search(v: int, lo: int, hi: int) -> int
    decreases hi - lo,
{
    if hi - lo <= 1 {
        hi
    } else {
        let mid = lo + (hi - lo) / 2;
        if quarter_sine(mid) < v { arc_search(v, mid, hi) } else { arc_search(v, lo, mid) }
    }
}

/// The arc of a sine `v` in `[0, RADIUS]`, to the nano-degree.
pub open spec fn quarter_arc(v: int) -> int {
    arc_search(v, -1, QUARTER as int)
}

/// The arc whose sine is `v`, in `[-90, 90]` degrees.
pub open spec fn arc_sine_of(v: int) -> int {
    if v >= 0 { quarter_arc(v) } else { -quarter_arc(-v) }
}

proof fn lemma_arc_search(v: int, lo: int, hi: int)
    requires
        -1 <= lo < hi <= QUARTER,
    ensures
        lo < arc_search(v, lo, hi) <= hi,
        arc_search(v, lo, hi) == hi || quarter_sine(arc_search(v, lo, hi)) >= v,
        arc_search(v, lo, hi) == lo + 1 || quarter_sine(arc_search(v, lo, hi) - 1) < v,
    decreases hi - lo,
{
    if hi - lo > 1 {
        let mid = lo + (hi - lo) / 2;
        if quarter_sine(mid) < v {
            lemma_arc_search(v, mid, hi);
        } else {
            lemma_arc_search(v, lo, mid);
        }
    }
}

proof fn lemma_quarter_arc_bounds(v: int)
    ensures
        0 <= quarter_arc(v) <= QUARTER,
        v <= 0 ==> quarter_arc(v) == 0,
        v > 0 ==> quarter_arc(v) > 0,
{
    lemma_arc_search(v, -1, QUARTER as int);
    let r = quarter_arc(v);
    if v <= 0 && r != 0 {
        lemma_quarter_sine_bounds(r - 1);
    }
    if v > 0 && r == 0 {
        lemma_quarter_sine_bounds(0);
    }
}

fn quarter_arc_exec(v: i64) -> (r: i64)
    ensures
        r == quarter_arc(v as int),
        0 <= r <= QUARTER,
        v <= 0 ==> r == 0,
        v > 0 ==> r > 0,
{
    proof {
        lemma_quarter_arc_bounds(v as int);
    }
    let mut lo: i64 = -1;
    let mut hi: i64 = QUARTER;
    while hi - lo > 1
        invariant
            -1 <= lo < hi <= QUARTER,
            arc_search(v as int, lo as int, hi as int) == quarter_arc(v as int),
        decreases hi - lo,
    {
        let mid: i64 = lo + (hi - lo) / 2;
        if quarter_rsine(mid) < v {
            lo = mid;
        } else {
            hi = mid;
        }
    }
    hi
}

/// Every arc of a sine lies in `[-90, 90]` degrees, and has the sine's sign.
pub proof fn lemma_arc_bounds(v: int)
    ensures
        -QUARTER <= arc_sine_of(v) <= QUARTER,
        v == 0 ==> arc_sine_of(v) == 0,
        v > 0 ==> arc_sine_of(v) > 0,
        v < 0 ==> arc_sine_of(v) < 0,
{
    lemma_quarter_arc_bounds(v);
    lemma_quarter_arc_bounds(-v);
}

/// The arc whose sine is `v`, in `[-90, 90]` degrees: the least angle whose
/// sine reaches `|v|`, with the sign of `v`.
pub fn arc_rsine(v: i64) -> (r: i64)
    requires
        -RADIUS <= v <= RADIUS,
    ensures
        r == arc_sine_of(v as int),
        -QUARTER <= r <= QUARTER,
        v == 0 ==> r == 0,
        v > 0 ==> r > 0,
        v < 0 ==> r < 0,
{
    if v >= 0 {
        quarter_arc_exec(v)
    } else {
        -quarter_arc_exec(-v)
    }
}

/// `x * num / den`, rounded toward zero.
pub open spec fn fraction_of(x: int, num: int, den: int) -> int {
    if x >= 0 { x * num / den } else { -((-x) * num / den) }
}

pub proof fn lemma_fraction_bounds(x: int, num: int, den: int)
    requires
        0 <= num <= den,
        0 < den,
    ensures
        x >= 0 ==> 0 <= fraction_of(x, num, den) <= x,
        x < 0 ==> x <= fraction_of(x, num, den) <= 0,
        x == 0 ==> fraction_of(x, num, den) == 0,
{
    let ax = if x >= 0 { x } else { -x };
    assert(ax * num == num * ax) by (nonlinear_arith);
    lemma_scaled_fraction(num, ax, den);
    if x == 0 {
        assert(0 * num == 0);
    }
}

/// Takes the fraction `num / den` of `x`, rounding toward zero.
pub fn scale(x: i64, num: i64, den: i64) -> (r: i64)
    requires
        0 <= num <= den,
        0 < den,
    ensures
        r == fraction_of(x as int, num as int, den as int),
        x >= 0 ==> 0 <= r <= x,
        x < 0 ==> x <= r <= 0,
{
    proof {
        lemma_fraction_bounds(x as int, num as int, den as int);
    }
    let wide: i128 = if x >= 0 { x as i128 } else { -(x as i128) };
    proof {
        assert(0 <= wide * num <= 9223372036854775808 * 9223372036854775807) by (nonlinear_arith)
            requires 0 <= wide <= 9223372036854775808, 0 <= num <= 9223372036854775807;
    }
    let q: i128 = wide * (num as i128) / (den as i128);
    if x >= 0 { q as i64 } else { -q as i64 }
}

/// `x * num / den`, rounded away from zero.
pub open spec fn fraction_away(x: int, num: int, den: int) -> int {
    if x >= 0 { (x * num + den - 1) / den } else { -(((-x) * num + den - 1) / den) }
}

proof fn lemma_up_bounds(a: int, num: int, den: int)
    requires
        0 <= a,
        0 <= num <= den,
        0 < den,
    ensures
        0 <= (a * num + den - 1) / den <= a,
        a * num > 0 ==> (a * num + den - 1) / den >= 1,
{
    let q = (a * num + den - 1) / den;
    lemma_fundamental_div_mod(a * num + den - 1, den);
    vstd::arithmetic::div_mod::lemma_mod_pos_bound(a * num + den - 1, den);
    let m = (a * num + den - 1) % den;
    assert(0 <= a * num <= a * den) by (nonlinear_arith)
        requires 0 <= a, 0 <= num <= den;
    assert(q * den == a * num + den - 1 - m);
    assert(q <= a) by (nonlinear_arith)
        requires q * den == a * num + den - 1 - m, 0 <= m < den, a * num <= a * den, 0 < den;
    assert(q >= 0) by (nonlinear_arith)
        requires q * den == a * num + den - 1 - m, 0 <= m < den, 0 <= a * num, 0 < den;
    if a * num > 0 {
        assert(q >= 1) by (nonlinear_arith)
            requires q * den == a * num + den - 1 - m, 0 <= m < den, 1 <= a * num, 0 < den;
    }
}

/// Bounds and sign of a fraction rounded away from zero.
pub proof fn lemma_fraction_away_bounds(x: int, num: int, den: int)
    requires
        0 <= num <= den,
        0 < den,
    ensures
        x >= 0 ==> 0 <= fraction_away(x, num, den) <= x,
        x < 0 ==> x <= fraction_away(x, num, den) <= 0,
        x > 0 && num > 0 ==> fraction_away(x, num, den) > 0,
        x < 0 && num > 0 ==> fraction_away(x, num, den) < 0,
        x == 0 ==> fraction_away(x, num, den) == 0,
{
    let a = if x >= 0 { x } else { -x };
    lemma_up_bounds(a, num, den);
    if a > 0 && num > 0 {
        assert(a * num > 0) by (nonlinear_arith) requires a > 0, num > 0;
    }
}

/// Takes the fraction `num / den` of `x`, rounding away from zero, so that a
/// nonzero `x` keeps a nonzero share for a nonzero `num`.
pub fn scale_away(x: i64, num: i64, den: i64) -> (r: i64)
    requires
        0 <= num <= den,
        0 < den,
    ensures
        r == fraction_away(x as int, num as int, den as int),
        x >= 0 ==> 0 <= r <= x,
        x < 0 ==> x <= r <= 0,
        x > 0 && num > 0 ==> r > 0,
        x < 0 && num > 0 ==> r < 0,
{
    proof {
        lemma_fraction_away_bounds(x as int, num as int, den as int);
    }
    let wide: i128 = if x >= 0 { x as i128 } else { -(x as i128) };
    proof {
        assert(0 <= wide * num <= 9223372036854775808 * 9223372036854775807) by (nonlinear_arith)
            requires 0 <= wide <= 9223372036854775808, 0 <= num <= 9223372036854775807;
    }
    let q: i128 = (wide * (num as i128) + (den as i128) - 1) / (den as i128);
    if x >= 0 { q as i64 } else { -q as i64 }
}

/// `r` is the integer square root of `n`.
pub open spec fn is_root(r: int, n: int) -> bool {
    0 <= r && r * r <= n < (r + 1) * (r + 1)
}

/// The integer square root of a non-negative `n`.
pub open spec fn int_sqrt(n: int) -> int {
    choose|r: int| is_root(r, n)
}

proof fn lemma_root_unique(n: int, a: int, b: int)
    requires
        is_root(a, n),
        is_root(b, n),
    ensures
        a == b,
{
    if a < b {
        assert((a + 1) * (a + 1) <= b * b) by (nonlinear_arith)
            requires 0 <= a, a + 1 <= b;
    } else if b < a {
        assert((b + 1) * (b + 1) <= a * a) by (nonlinear_arith)
            requires 0 <= b, b + 1 <= a;
    }
}

/// The greatest `r` whose square does not exceed `n`.
pub fn isqrt(n: u128) -> (r: u64)
    requires
        n <= 100_000_000_000_000_000_000,
    ensures
        is_root(r as int, n as int),
        r as int == int_sqrt(n as int),
{
    let mut lo: u128 = 0;
    let mut hi: u128 = 10_000_000_001;
    while lo + 1 < hi
        invariant
            lo < hi <= 10_000_000_001,
            lo * lo <= n < hi * hi,
        decreases hi - lo,
    {
        let mid: u128 = lo + (hi - lo) / 2;
        proof {
            assert(mid * mid <= 10_000_000_001 * 10_000_000_001) by (nonlinear_arith)
                requires mid <= 10_000_000_001;
        }
        if mid * mid <= n {
            lo = mid;
        } else {
            hi = mid;
        }
    }
    proof {
        assert(is_root(lo as int, n as int));
        assert(exists|r: int| is_root(r, n as int));
        lemma_root_unique(n as int, lo as int, int_sqrt(n as int));
    }
    lo as u64
}

} // verus!
