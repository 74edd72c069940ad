use vstd::prelude::*;
use vstd::arithmetic::div_mod::lemma_small_mod;
use crate::angle::{norm, normalize, CIRCLE, HALF};
use crate::correction::{
    manda_correction, manda_of, sighra_correction, sighra_of, Epicycle,
};
use crate::motion::{mean_longitude, mean_longitude_of, Motion};
use crate::trig::{fraction_of, scale};

verus! {

/// How a body's true place is found from its mean place.
#[derive(Clone, Copy, Debug, PartialEq, Eq)]
pub enum BodyClass {
    /// The Sun and the Moon: the manda correction alone.
    Luminary,
    /// Mars, Jupiter and Saturn: the body's own mean motion gives its mean
    /// longitude and the mean Sun its conjunction point.
    Outer { sighra: Epicycle },
    /// Mercury and Venus: the mean Sun gives the mean longitude and the
    /// body's own mean motion its conjunction point.
    Inner { sighra: Epicycle },
}

/// The constants of one body.
#[derive(Clone, Copy, Debug, PartialEq, Eq)]
pub struct Body {
    pub class: BodyClass,
    /// The body's own mean motion.
    pub motion: Motion,
    /// The epicycle of the equation of the centre.
    pub manda: Epicycle,
    /// The motion of the apogee.
    pub apogee: Motion,
}

impl Body {
    /// Every epicycle of the body is smaller than the deferent.
    pub open spec fn wf(&self) -> bool {
        &&& self.manda.wf()
        &&& match self.class {
            BodyClass::Luminary => true,
            BodyClass::Outer { sighra } => sighra.wf(),
            BodyClass::Inner { sighra } => sighra.wf(),
        }
    }
}

/// The body's own mean longitude after `days`.
pub open spec fn own_mean_of(days: int, body: Body) -> int {
    mean_longitude_of(days, body.motion.rate as int, body.motion.offset as int)
}

/// The longitude of the body's apogee after `days`.
pub open spec fn apogee_of(days: int, body: Body) -> int {
    mean_longitude_of(days, body.apogee.rate as int, body.apogee.offset as int)
}

/// The mean longitude that the corrections start from, and the conjunction
/// point (zero for a luminary).
pub open spec fn mean_and_point_of(days: int, body: Body, sun_mean: int) -> (int, int) {
    match body.class {
        BodyClass::Luminary => (own_mean_of(days, body), 0),
        BodyClass::Outer { .. } => (own_mean_of(days, body), sun_mean),
        BodyClass::Inner { .. } => (sun_mean, own_mean_of(days, body)),
    }
}

/// The true longitude of a body with conjunction correction, from its mean
/// longitude, conjunction point and apogee: half the conjunction correction,
/// then half the equation of the centre, then the full equation of the
/// centre on the mean, then the full conjunction correction.
pub open spec fn synodic_true_of(mean: int, point: int, apogee: int, manda: Epicycle, sighra: Epicycle) -> int {
    let s1 = sighra_of(mean, point, sighra);
    let p1 = mean + fraction_of(s1, 1, 2);
    let m1 = manda_of(p1, apogee, manda);
    let p2 = mean + fraction_of(m1, 1, 2);
    let m2 = manda_of(p2, apogee, manda);
    let p_manda = mean + m2;
    norm(p_manda + sighra_of(p_manda, point, sighra))
}

/// The true longitude of `body` after `days`, given the mean Sun.
pub open spec fn true_position_of(days: int, body: Body, sun_mean: int) -> int {
    let apogee = apogee_of(days, body);
    let mean = mean_and_point_of(days, body, sun_mean).0;
    let point = mean_and_point_of(days, body, sun_mean).1;
    match body.class {
        BodyClass::Luminary => norm(mean - manda_of(mean, apogee, body.manda)),
        BodyClass::Outer { sighra } => synodic_true_of(mean, point, apogee, body.manda, sighra),
        BodyClass::Inner { sighra } => synodic_true_of(mean, point, apogee, body.manda, sighra),
    }
}

/// The mean longitude that the corrections of `body` start from after
/// `days`, and its conjunction point (zero for a luminary).
pub fn mean_and_point(days: i64, body: &Body, sun_mean: i64) -> (r: (i64, i64))
    ensures
        r.0 == mean_and_point_of(days as int, *body, sun_mean as int).0,
        r.1 == mean_and_point_of(days as int, *body, sun_mean as int).1,
{
    let own: i64 = mean_longitude(days, body.motion.rate, body.motion.offset);
    match body.class {
        BodyClass::Luminary => (own, 0),
        BodyClass::Outer { .. } => (own, sun_mean),
        BodyClass::Inner { .. } => (sun_mean, own),
    }
}

fn synodic_true(mean: i64, point: i64, apogee: i64, manda: &Epicycle, sighra: &Epicycle) -> (r: i64)
    requires
        0 <= mean < CIRCLE,
        manda.wf(),
        sighra.wf(),
    ensures
        r == synodic_true_of(mean as int, point as int, apogee as int, *manda, *sighra),
        0 <= r < CIRCLE,
{
    let s1: i64 = sighra_correction(mean, point, sighra);
    let p1: i64 = mean + scale(s1, 1, 2);
    let m1: i64 = manda_correction(p1, apogee, manda);
    let p2: i64 = mean + scale(m1, 1, 2);
    let m2: i64 = manda_correction(p2, apogee, manda);
    let p_manda: i64 = mean + m2;
    let s2: i64 = sighra_correction(p_manda, point, sighra);
    normalize(p_manda + s2)
}

/// The true longitude of `body` after `days` nano-days since the epoch,
/// given the mean longitude of the Sun at that time.
pub fn true_position(days: i64, body: &Body, sun_mean: i64) -> (r: i64)
    requires
        body.wf(),
        0 <= sun_mean < CIRCLE,
    ensures
        r == true_position_of(days as int, *body, sun_mean as int),
        0 <= r < CIRCLE,
{
    let (mean, point) = mean_and_point(days, body, sun_mean);
    let apogee: i64 = mean_longitude(days, body.apogee.rate, body.apogee.offset);
    match body.class {
        BodyClass::Luminary => normalize(mean - manda_correction(mean, apogee, &body.manda)),
        BodyClass::Outer { sighra } => synodic_true(mean, point, apogee, &body.manda, &sighra),
        BodyClass::Inner { sighra } => synodic_true(mean, point, apogee, &body.manda, &sighra),
    }
}

/// A luminary whose mean longitude coincides with its apogee has no
/// equation of the centre: its true longitude is its mean longitude.
pub proof fn lemma_luminary_at_apogee(days: int, body: Body, sun_mean: int)
    requires
        body.wf(),
        body.class is Luminary,
        own_mean_of(days, body) == apogee_of(days, body),
    ensures
        true_position_of(days, body, sun_mean) == own_mean_of(days, body),
{
    let m = own_mean_of(days, body);
    assert(norm(m - m) == 0);
    crate::trig::lemma_sine_zero();
    crate::correction::lemma_size_between(body.manda, 0);
    crate::trig::lemma_fraction_away_bounds(0, crate::correction::size_of(body.manda, 0), crate::correction::DEFERENT as int);
    crate::trig::lemma_arc_bounds(0);
    assert(manda_of(m, m, body.manda) == 0);
    crate::angle::lemma_norm_range(
        crate::motion::cycle_angle(days, body.motion.rate as int) + body.motion.offset);
    lemma_small_mod(m as nat, CIRCLE as nat);
}

/// The true longitude depends on the elapsed time, the body and the mean
/// Sun alone: the same inputs always give the same longitude.
pub proof fn lemma_true_position_deterministic(
    days1: int, body1: Body, sun1: int, days2: int, body2: Body, sun2: int,
)
    requires
        days1 == days2,
        body1 == body2,
        sun1 == sun2,
    ensures
        true_position_of(days1, body1, sun1) == true_position_of(days2, body2, sun2),
{
}

/// The longitude of the ascending node (Rahu) after `days`.
pub open spec fn ascending_node_of(days: int, node: Motion) -> int {
    mean_longitude_of(days, node.rate as int, node.offset as int)
}

/// The longitude of the descending node (Ketu) after `days`.
pub open spec fn descending_node_of(days: int, node: Motion) -> int {
    norm(ascending_node_of(days, node) + HALF)
}

/// The longitude of the ascending node after `days` nano-days since the
/// epoch, for a node of uniform (usually retrograde) motion.
pub fn ascending_node(days: i64, node: &Motion) -> (r: i64)
    ensures
        r == ascending_node_of(days as int, *node),
        0 <= r < CIRCLE,
{
    mean_longitude(days, node.rate, node.offset)
}

/// The longitude of the descending node: the ascending node plus 180 degrees.
pub fn descending_node(days: i64, node: &Motion) -> (r: i64)
    ensures
        r == descending_node_of(days as int, *node),
        0 <= r < CIRCLE,
{
    normalize(ascending_node(days, node) + HALF)
}

/// The two nodes always stand 180 degrees apart.
pub proof fn lemma_nodes_opposite(days: int, node: Motion)
    ensures
        norm(descending_node_of(days, node) - ascending_node_of(days, node)) == HALF,
{
    let a = ascending_node_of(days, node);
    let c = CIRCLE as int;
    crate::angle::lemma_norm_range(crate::motion::cycle_angle(days, node.rate as int) + node.offset);
    if a < HALF {
        lemma_small_mod((a + HALF) as nat, c as nat);
    } else {
        vstd::arithmetic::div_mod::lemma_fundamental_div_mod_converse(a + HALF, c, 1, a - HALF);
    }
    lemma_small_mod(HALF as nat, c as nat);
    vstd::arithmetic::div_mod::lemma_fundamental_div_mod_converse(-HALF, c, -1, HALF as int);
}

} // verus!
