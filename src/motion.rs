use vstd::prelude::*;
use vstd::arithmetic::div_mod::{
    lemma_add_mod_noop, lemma_div_is_ordered, lemma_div_pos_is_pos,
    lemma_fundamental_div_mod_converse, lemma_mod_multiples_vanish, lemma_small_mod,
};
use crate::angle::{norm, normalize, CIRCLE};

verus! {

/// Civil days in one great cycle, over which every rate is counted.
pub const CYCLE_DAYS: i64 = 1_577_917_828;

/// Time units in one day: elapsed time is held in nano-days.
pub const DAY_UNIT: i64 = 1_000_000_000;

/// Rate units in one revolution: rates are held in hundred-millionths of a
/// revolution per great cycle.
pub const RATE_UNIT: i64 = 100_000_000;

/// One revolution per great cycle, in units of elapsed time times units of rate.
pub const CYCLE_PRODUCT: i128 = 157_791_782_800_000_000_000_000_000;

/// A uniform motion: a rate of revolutions per great cycle and the
/// longitude at the epoch.
#[derive(Clone, Copy, Debug, PartialEq, Eq)]
pub struct Motion {
    /// Revolutions per great cycle, in hundred-millionths.
    pub rate: i64,
    /// Longitude at the epoch, in nano-degrees.
    pub offset: i64,
}

/// The part of a revolution covered after `days`, as an angle in `[0, 360)`.
pub open spec fn cycle_angle(days: int, rate: int) -> int {
    (days * rate) % (CYCLE_PRODUCT as int) * (CIRCLE as int) / (CYCLE_PRODUCT as int)
}

/// Mean longitude after `days` nano-days of a motion of `rate` that stood
/// at `offset` at the epoch.
pub open spec fn mean_longitude_of(days: int, rate: int, offset: int) -> int {
    norm(cycle_angle(days, rate) + offset)
}

fn cycle_remainder(p: i128) -> (r: i128)
    requires
        i128::MIN < p,
    ensures
        r as int == (p as int) % (CYCLE_PRODUCT as int),
        0 <= r < CYCLE_PRODUCT,
{
    if p >= 0 {
        p % CYCLE_PRODUCT
    } else {
        let m: i128 = (-p) % CYCLE_PRODUCT;
        proof {
            let c = CYCLE_PRODUCT as int;
            let q: int = (-p) / c;
            vstd::arithmetic::div_mod::lemma_fundamental_div_mod(-p as int, c);
            if m == 0 {
                lemma_fundamental_div_mod_converse(p as int, c, -q, 0);
            } else {
                lemma_fundamental_div_mod_converse(p as int, c, -q - 1, c - m);
            }
        }
        if m == 0 { 0 } else { CYCLE_PRODUCT - m }
    }
}

/// Mean longitude after `days` nano-days since the epoch of a body moving
/// `rate` revolutions per great cycle from `offset` at the epoch: the
/// fraction of a revolution covered (for negative time and retrograde rates
/// too), plus the offset, brought into `[0, 360)`.
pub fn mean_longitude(days: i64, rate: i64, offset: i64) -> (r: i64)
    ensures
        r == mean_longitude_of(days as int, rate as int, offset as int),
        0 <= r < CIRCLE,
{
    proof {
        assert(i128::MIN < days * rate <= i128::MAX) by (nonlinear_arith)
            requires
                i64::MIN <= days <= i64::MAX,
                i64::MIN <= rate <= i64::MAX;
    }
    let p: i128 = days as i128 * rate as i128;
    let f: i128 = cycle_remainder(p);
    proof {
        assert(0 <= f * CIRCLE < CYCLE_PRODUCT * CIRCLE) by (nonlinear_arith)
            requires 0 <= f < CYCLE_PRODUCT;
        lemma_div_pos_is_pos(f * CIRCLE, CYCLE_PRODUCT as int);
        lemma_div_is_ordered(f * CIRCLE, CYCLE_PRODUCT * CIRCLE - 1, CYCLE_PRODUCT as int);
        assert((CYCLE_PRODUCT * CIRCLE - 1) / (CYCLE_PRODUCT as int) < CIRCLE) by {
            lemma_fundamental_div_mod_converse(CYCLE_PRODUCT * CIRCLE - 1, CYCLE_PRODUCT as int,
                CIRCLE - 1, CYCLE_PRODUCT - 1);
        }
    }
    let a: i64 = (f * (CIRCLE as i128) / CYCLE_PRODUCT) as i64;
    let o: i64 = normalize(offset);
    proof {
        let c = CIRCLE as int;
        lemma_small_mod(a as nat, c as nat);
        lemma_add_mod_noop(a as int, offset as int, c);
    }
    normalize(a + o)
}

/// At the epoch a mean longitude is its offset, brought into `[0, 360)`.
pub proof fn lemma_epoch_longitude(rate: int, offset: int)
    ensures
        mean_longitude_of(0, rate, offset) == norm(offset),
{
    assert(0 * rate == 0);
    assert(cycle_angle(0, rate) == 0);
}

/// A motion of a whole number of revolutions per great cycle returns to the
/// same mean longitude after any whole number of great cycles.
pub proof fn lemma_whole_cycles(days: int, cycles: int, rate: int, offset: int)
    requires
        rate % (RATE_UNIT as int) == 0,
    ensures
        mean_longitude_of(days + cycles * CYCLE_DAYS * DAY_UNIT, rate, offset)
            == mean_longitude_of(days, rate, offset),
{
    let revs = rate / (RATE_UNIT as int);
    vstd::arithmetic::div_mod::lemma_fundamental_div_mod(rate, RATE_UNIT as int);
    let c = CYCLE_PRODUCT as int;
    assert((days + cycles * CYCLE_DAYS * DAY_UNIT) * rate == c * (cycles * revs) + days * rate)
        by (nonlinear_arith)
        requires
            rate == RATE_UNIT * revs,
            c == CYCLE_DAYS * DAY_UNIT * RATE_UNIT;
    lemma_mod_multiples_vanish(cycles * revs, days * rate, c);
}

/// After `cycles` more great cycles a mean longitude has moved on by the
/// fractional part of the `cycles * rate` revolutions made meanwhile: the
/// remainder of `cycles * rate` over one revolution, as an angle.
pub proof fn lemma_cycles_shift(days: int, cycles: int, rate: int, offset: int)
    ensures
        mean_longitude_of(days + cycles * CYCLE_DAYS * DAY_UNIT, rate, offset) == norm(
            mean_longitude_of(days, rate, offset)
                + (cycles * rate) % (RATE_UNIT as int) * (CIRCLE / RATE_UNIT) as int,
        ),
{
    let m = CYCLE_PRODUCT as int;
    let c = CIRCLE as int;
    let ru = RATE_UNIT as int;
    let p = days * rate;
    let a0 = p % m;
    let qp = p / m;
    let s = (cycles * rate) % ru;
    let q = (cycles * rate) / ru;
    let b = s * CYCLE_DAYS * DAY_UNIT;
    vstd::arithmetic::div_mod::lemma_fundamental_div_mod(p, m);
    vstd::arithmetic::div_mod::lemma_fundamental_div_mod(cycles * rate, ru);
    vstd::arithmetic::div_mod::lemma_mod_division_less_than_divisor(p, m);
    vstd::arithmetic::div_mod::lemma_mod_division_less_than_divisor(cycles * rate, ru);
    assert(0 <= b < m) by (nonlinear_arith)
        requires 0 <= s < ru, b == s * CYCLE_DAYS * DAY_UNIT, m == CYCLE_DAYS * DAY_UNIT * ru;
    // the product after the further cycles, reduced over one revolution
    assert((days + cycles * CYCLE_DAYS * DAY_UNIT) * rate == m * (qp + q) + (a0 + b))
        by (nonlinear_arith)
        requires
            p == days * rate,
            p == m * qp + a0,
            cycles * rate == ru * q + s,
            b == s * CYCLE_DAYS * DAY_UNIT,
            m == CYCLE_DAYS * DAY_UNIT * ru;
    lemma_mod_multiples_vanish(qp + q, a0 + b, m);
    let j: int = if a0 + b < m { 0 } else { 1 };
    let big_a = a0 + b - j * m;
    if j == 0 {
        lemma_small_mod((a0 + b) as nat, m as nat);
    } else {
        lemma_fundamental_div_mod_converse(a0 + b, m, 1, a0 + b - m);
    }
    assert(cycle_angle(days + cycles * CYCLE_DAYS * DAY_UNIT, rate) == big_a * c / m);
    // the angle of the reduced product
    let qa = a0 * c / m;
    let ra = a0 * c % m;
    vstd::arithmetic::div_mod::lemma_fundamental_div_mod(a0 * c, m);
    vstd::arithmetic::div_mod::lemma_mod_division_less_than_divisor(a0 * c, m);
    let shift = s * (CIRCLE / RATE_UNIT) as int;
    assert(big_a * c == m * (qa + shift - j * c) + ra) by (nonlinear_arith)
        requires
            big_a == a0 + b - j * m,
            a0 * c == m * qa + ra,
            b == s * CYCLE_DAYS * DAY_UNIT,
            m == CYCLE_DAYS * DAY_UNIT * ru,
            c == 3600 * ru,
            shift == 3600 * s;
    lemma_fundamental_div_mod_converse(big_a * c, m, qa + shift - j * c, ra);
    assert(cycle_angle(days, rate) == qa);
    // back to longitudes
    lemma_mod_multiples_vanish(-j, qa + shift + offset, c);
    assert(c * (-j) + (qa + shift + offset) == qa + shift - j * c + offset);
    vstd::arithmetic::div_mod::lemma_add_mod_noop_right(shift, qa + offset, c);
    assert(shift + (qa + offset) == qa + offset + shift);
}

} // verus!
