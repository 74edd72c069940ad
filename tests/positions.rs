use siddhanta::angle::{normalize, CIRCLE, DEGREE, HALF, QUARTER};
use siddhanta::bodies::{jupiter, lunar_node, mars, mercury, moon, saturn, sun, venus};
use siddhanta::calendar::days_since_epoch;
use siddhanta::correction::{manda_correction, rectified_size, sighra_correction, Epicycle};
use siddhanta::motion::{mean_longitude, Motion, CYCLE_DAYS, DAY_UNIT, RATE_UNIT};
use siddhanta::position::{
    ascending_node, descending_node, mean_and_point, true_position, Body, BodyClass,
};
use siddhanta::trig::{arc_rsine, isqrt, rcosine, rsine, scale, RADIUS};

#[test]
fn normalize_brings_angles_into_one_turn() {
    assert_eq!(normalize(0), 0);
    assert_eq!(normalize(CIRCLE), 0);
    assert_eq!(normalize(-1), CIRCLE - 1);
    assert_eq!(normalize(-CIRCLE), 0);
    assert_eq!(normalize(370 * DEGREE), 10 * DEGREE);
    assert_eq!(normalize(-10 * DEGREE), 350 * DEGREE);
    let r = normalize(i64::MIN);
    assert!(0 <= r && r < CIRCLE);
    let r = normalize(i64::MAX);
    assert!(0 <= r && r < CIRCLE);
}

#[test]
fn sines_at_known_angles() {
    assert_eq!(rsine(0), 0);
    assert_eq!(rsine(QUARTER), RADIUS);
    assert_eq!(rsine(30 * DEGREE), 1_719_000_000);
    assert_eq!(rsine(150 * DEGREE), 1_719_000_000);
    assert_eq!(rsine(210 * DEGREE), -1_719_000_000);
    assert_eq!(rsine(-QUARTER), -RADIUS);
    assert_eq!(rsine(HALF), 0);
    assert_eq!(rcosine(0), RADIUS);
    assert_eq!(rcosine(60 * DEGREE), 1_719_000_000);
    assert_eq!(rsine(1_875_000_000), 112_488_206);
    assert_eq!(rsine(17), 1);
    for k in 0i64..360 {
        let a = k * DEGREE + 1_234_567;
        let exact = (a as f64 / 1e9).to_radians().sin() * 3_438_000_000.0;
        assert!((rsine(a) as f64 - exact).abs() <= 2.0, "{}", k);
    }
}

#[test]
fn arcs_invert_the_sines() {
    assert_eq!(arc_rsine(0), 0);
    assert_eq!(arc_rsine(RADIUS), 89_999_983_098);
    assert_eq!(arc_rsine(-RADIUS), -89_999_983_098);
    assert_eq!(arc_rsine(1_719_000_000), 30 * DEGREE);
    assert_eq!(arc_rsine(-1_719_000_000), -30 * DEGREE);
    assert_eq!(arc_rsine(1), 17);
    for k in 1i64..80 {
        let v = k * 40_000_000;
        let exact = (v as f64 / 3_438_000_000.0).asin().to_degrees() * 1e9;
        assert!((arc_rsine(v) as f64 - exact).abs() <= 100.0, "{}", k);
    }
}

#[test]
fn integer_square_roots() {
    assert_eq!(isqrt(0), 0);
    assert_eq!(isqrt(15), 3);
    assert_eq!(isqrt(16), 4);
    assert_eq!(isqrt(100_000_000_000_000_000_000), 10_000_000_000);
    assert_eq!(scale(7, 1, 2), 3);
    assert_eq!(scale(-7, 1, 2), -3);
}

#[test]
fn mean_longitude_at_epoch_is_the_offset() {
    let s = sun();
    assert_eq!(mean_longitude(0, s.motion.rate, s.motion.offset), 358_230_697_950);
    assert_eq!(mean_longitude(0, s.motion.rate, -10 * DEGREE), 350 * DEGREE);
}

#[test]
fn mean_longitude_repeats_after_whole_cycles() {
    let rate = 5 * RATE_UNIT;
    let cycle = CYCLE_DAYS * DAY_UNIT;
    for days in [0i64, 12_345_678, -98_765_432_100] {
        let base = mean_longitude(days, rate, 17 * DEGREE);
        assert_eq!(mean_longitude(days + 3 * cycle, rate, 17 * DEGREE), base);
        assert_eq!(mean_longitude(days - 2 * cycle, rate, 17 * DEGREE), base);
    }
    // fractional rates move on by the fractional revolutions made meanwhile
    let half = RATE_UNIT / 2;
    for days in [0i64, 12_345_678, -98_765_432_100] {
        let base = mean_longitude(days, half, 0);
        assert_eq!(mean_longitude(days + cycle, half, 0), normalize(base + HALF));
    }
    let sun_rate = sun().motion.rate;
    let base = mean_longitude(777, sun_rate, 5);
    let shift = (2 * sun_rate % RATE_UNIT) * (CIRCLE / RATE_UNIT);
    assert_eq!(mean_longitude(777 + 2 * cycle, sun_rate, 5), normalize(base + shift));
    // a quarter of the cycle at one revolution per cycle is a quarter turn
    assert_eq!(mean_longitude(cycle / 4, RATE_UNIT, 0), QUARTER);
    // retrograde motion runs backwards
    assert_eq!(mean_longitude(cycle / 4, -RATE_UNIT, 0), 270 * DEGREE);
}

#[test]
fn sun_mean_longitude_matches_direct_fraction() {
    let days = days_since_epoch(2025, 5, 19, 13 * 3600 + 51 * 60 + 26);
    assert_eq!(days, 1_872_349_577_384_259);
    let s = sun();
    let got = mean_longitude(days, s.motion.rate, 0) as f64 / DEGREE as f64;
    let cycles = (days as f64 / 1e9) * 4320848.34408488 / 1_577_917_828.0;
    let expected = (cycles * 360.0).rem_euclid(360.0);
    assert!((got - expected).abs() < 1e-6, "{} {}", got, expected);
    let with_offset = mean_longitude(days, s.motion.rate, s.motion.offset) as f64 / 1e9;
    let expected = (expected + 358.23069795).rem_euclid(360.0);
    assert!((with_offset - expected).abs() < 1e-6);
}

#[test]
fn rectified_size_stays_between_its_sizes() {
    let ep = Epicycle { even: 14_000_000, odd: 13_670_000 };
    assert_eq!(rectified_size(&ep, 0), 14_000_000);
    assert_eq!(rectified_size(&ep, QUARTER), 13_670_000);
    assert_eq!(rectified_size(&ep, -QUARTER), 13_670_000);
    assert_eq!(rectified_size(&ep, 30 * DEGREE), 13_835_000);
    let rising = Epicycle { even: 70_000_000, odd: 72_000_000 };
    for k in -40i64..40 {
        let a = k * 11 * DEGREE + 123;
        let r = rectified_size(&ep, a);
        assert!(13_670_000 <= r && r <= 14_000_000);
        let r = rectified_size(&rising, a);
        assert!(70_000_000 <= r && r <= 72_000_000);
    }
}

#[test]
fn manda_correction_values() {
    let ep = Epicycle { even: 14_000_000, odd: 13_670_000 };
    assert_eq!(manda_correction(0, 0, &ep), 0);
    assert_eq!(manda_correction(123 * DEGREE, 123 * DEGREE, &ep), 0);
    // the Sun's greatest equation of the centre, asin(13.67 / 360)
    assert_eq!(manda_correction(QUARTER, 0, &ep), 2_176_171_253);
    assert_eq!(manda_correction(-QUARTER, 0, &ep), -2_176_171_253);
    let exact = (13.67f64 / 360.0).asin().to_degrees();
    assert!((manda_correction(QUARTER, 0, &ep) as f64 / 1e9 - exact).abs() < 1e-6);
    // a nonzero sine keeps a nonzero correction of its sign
    assert_eq!(manda_correction(17, 0, &ep), 17);
    assert_eq!(manda_correction(0, 17, &ep), -17);
    assert_eq!(manda_correction(HALF, 0, &ep), 0);
}

#[test]
fn sighra_correction_is_bounded() {
    let ep = Epicycle { even: 262_000_000, odd: 260_000_000 };
    assert_eq!(sighra_correction(0, 0, &ep), 0);
    assert_eq!(sighra_correction(40 * DEGREE, 40 * DEGREE, &ep), 0);
    assert!(sighra_correction(0, QUARTER, &ep) > 0);
    assert!(sighra_correction(QUARTER, 0, &ep) < 0);
    assert_eq!(sighra_correction(0, HALF, &ep), 0);
    // Mars at quadrature: atan(232 / 360)
    let mars_ep = Epicycle { even: 235_000_000, odd: 232_000_000 };
    assert_eq!(sighra_correction(0, QUARTER, &mars_ep), 32_799_531_286);
    let exact = (232f64 / 360.0).atan().to_degrees();
    assert!((sighra_correction(0, QUARTER, &mars_ep) as f64 / 1e9 - exact).abs() < 1e-6);
    assert_eq!(sighra_correction(0, 17, &mars_ep), 17);
    assert_eq!(sighra_correction(17, 0, &mars_ep), -17);
    for k in 0i64..72 {
        let s = sighra_correction(0, k * 5 * DEGREE, &ep);
        assert!(-QUARTER <= s && s <= QUARTER);
    }
}

#[test]
fn luminary_at_its_apogee_keeps_its_mean_longitude() {
    let body = Body {
        class: BodyClass::Luminary,
        motion: Motion { rate: 1_000 * RATE_UNIT, offset: 5 * DEGREE },
        manda: Epicycle { even: 14_000_000, odd: 13_670_000 },
        apogee: Motion { rate: 1_000 * RATE_UNIT, offset: 5 * DEGREE },
    };
    for days in [0i64, 1_000_000, 987_654_321_000] {
        let mean = mean_longitude(days, body.motion.rate, body.motion.offset);
        assert_eq!(true_position(days, &body, 0), mean);
    }
}

#[test]
fn nodes_stand_opposite() {
    let node = lunar_node();
    for days in [0i64, 1, 1_872_349_577_384_259, -5_000_000_000_000_000] {
        let rahu = ascending_node(days, &node);
        let ketu = descending_node(days, &node);
        assert_eq!(normalize(ketu - rahu), HALF);
    }
    assert_eq!(ascending_node(0, &node), 189_472_383_760);
    assert_eq!(descending_node(0, &node), 9_472_383_760);
}

#[test]
fn true_positions_are_repeatable_and_in_range() {
    let days = days_since_epoch(2025, 5, 19, 49_886);
    let s = sun();
    let sun_mean = mean_longitude(days, s.motion.rate, s.motion.offset);
    for body in [sun(), moon(), mars(), mercury(), jupiter(), venus(), saturn()] {
        let a = true_position(days, &body, sun_mean);
        let b = true_position(days, &body, sun_mean);
        assert_eq!(a, b);
        assert!(0 <= a && a < CIRCLE);
    }
}

#[test]
fn inner_bodies_swap_mean_and_conjunction_point() {
    let days = 1_000_000_000_000;
    let sun_mean = 42 * DEGREE;
    let m = mercury();
    let own = mean_longitude(days, m.motion.rate, m.motion.offset);
    assert_eq!(mean_and_point(days, &m, sun_mean), (sun_mean, own));
    let j = jupiter();
    let own = mean_longitude(days, j.motion.rate, j.motion.offset);
    assert_eq!(mean_and_point(days, &j, sun_mean), (own, sun_mean));
    let s = sun();
    let own = mean_longitude(days, s.motion.rate, s.motion.offset);
    assert_eq!(mean_and_point(days, &s, sun_mean), (own, 0));
}

#[test]
fn elapsed_days_from_civil_dates() {
    // the epoch is midnight starting 18 February 3102 BCE (Julian calendar),
    // which is the proleptic Gregorian 23 January -3101
    assert_eq!(days_since_epoch(-3101, 1, 23, 0), 0);
    assert_eq!(days_since_epoch(-3101, 1, 23, 43_200), 500_000_000);
    assert_eq!(days_since_epoch(2000, 1, 1, 43_200), 1_863_079_500_000_000);
}
