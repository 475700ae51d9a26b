//! The solar position approximation, in fixed-point micro-units.
//!
//! Angles are carried in micro-degrees, day counts in micro-days, and the
//! sine or cosine of an angle as a signed micro-unit sample in
//! `[-1_000_000, 1_000_000]`. Each step of the chain is an exact integer
//! function of its arguments; the trigonometric samples it consumes are
//! evaluated by the caller and handed in as plain values, so every result
//! below is pinned for every possible sample.

use vstd::prelude::*;
use crate::arith::div_t;
use crate::arith::div_trunc_i64;
use crate::arith::lemma_div_t_bound;

verus! {

/// One whole unit (a day, or a degree) of the fixed-point scale.
pub const MICRO: i64 = 1_000_000;

/// The Julian day number of the J2000 epoch, in micro-days.
pub const J2000_MICRO: i64 = 2_451_545_000_000;

/// Sine of 23.4397 degrees, the obliquity the approximation uses, in micro-units.
pub const SIN_OBLIQUITY_MICRO: i64 = 397_784;

/// Sine of -0.833 degrees, the altitude of the solar disc at rise and set,
/// in micro-units.
pub const SIN_ALTITUDE_MICRO: i64 = -14_538;

/// A geographic location in micro-degrees.
#[derive(Clone, Copy, PartialEq, Eq, Structural, Debug)]
pub struct GeoCoordinate {
    pub latitude_micro: i64,
    pub longitude_micro: i64,
}

impl GeoCoordinate {
    /// Latitude within ninety degrees of the equator, longitude within a
    /// half turn of the prime meridian.
    pub open spec fn valid(self) -> bool {
        &&& -90_000_000 <= self.latitude_micro <= 90_000_000
        &&& -180_000_000 <= self.longitude_micro <= 180_000_000
    }

    /// A coordinate from micro-degrees; nothing for an out-of-range pair.
    pub fn new(latitude_micro: i64, longitude_micro: i64) -> (r: Option<GeoCoordinate>)
        ensures
            r is Some <==> (-90_000_000 <= latitude_micro <= 90_000_000
                && -180_000_000 <= longitude_micro <= 180_000_000),
            r matches Some(g) ==> g.latitude_micro == latitude_micro
                && g.longitude_micro == longitude_micro && g.valid(),
    {
        if -90_000_000 <= latitude_micro && latitude_micro <= 90_000_000
            && -180_000_000 <= longitude_micro && longitude_micro <= 180_000_000 {
            Some(GeoCoordinate { latitude_micro, longitude_micro })
        } else {
            None
        }
    }
}

/// Days since the J2000 epoch, corrected for leap-second drift and rounded
/// up to a whole day, in micro-days.
pub open spec fn spec_normalized_date(j: int) -> int {
    ((j - 2_451_545_000_000 + 800 + 999_999) / 1_000_000) * 1_000_000
}

/// See `spec_normalized_date`.
pub fn normalized_date(j_micro: i64) -> (n: i64)
    requires
        J2000_MICRO <= j_micro <= 5_373_484_000_000,
    ensures
        n == spec_normalized_date(j_micro as int),
        MICRO <= n <= 2_921_940_000_000,
{
    let x: u64 = (j_micro - J2000_MICRO + 800) as u64;
    let q: u64 = (x + 999_999) / 1_000_000;
    proof {
        vstd::arithmetic::div_mod::lemma_div_is_ordered(1_000_799, x as int + 999_999, 1_000_000);
        vstd::arithmetic::div_mod::lemma_div_is_ordered(
            x as int + 999_999, 2_921_940_000_799, 1_000_000);
        assert(1_000_799int / 1_000_000 == 1);
        assert(2_921_940_000_799int / 1_000_000 == 2_921_940);
    }
    (q * 1_000_000) as i64
}

/// The approximate count of solar noons since J2000 at the given
/// longitude, in micro-days.
pub open spec fn spec_mean_solar_time(n: int, longitude: int) -> int {
    n - div_t(longitude, 360)
}

/// See `spec_mean_solar_time`.
pub fn mean_solar_time(n: i64, longitude_micro: i64) -> (j_star: i64)
    requires
        MICRO <= n <= 2_921_940_000_000,
        -180_000_000 <= longitude_micro <= 180_000_000,
    ensures
        j_star == spec_mean_solar_time(n as int, longitude_micro as int),
        500_000 <= j_star <= 2_921_940_500_000,
{
    proof {
        lemma_div_t_bound(longitude_micro as int, 360, 180_000_000);
        assert(180_000_000int / 360 == 500_000);
    }
    n - div_trunc_i64(longitude_micro, 360)
}

/// The solar mean anomaly of a mean solar time, in micro-degrees.
pub open spec fn spec_solar_mean_anomaly(j_star: int) -> int {
    (357_529_100 + (985_600_280 * j_star) / 1_000_000_000) % 360_000_000
}

/// See `spec_solar_mean_anomaly`.
pub fn solar_mean_anomaly(j_star: i64) -> (m: i64)
    requires
        1 <= j_star <= 3_000_000_000_000,
    ensures
        m == spec_solar_mean_anomaly(j_star as int),
        0 <= m < 360_000_000,
{
    let p: u128 = 985_600_280u128 * (j_star as u128);
    let q: u128 = p / 1_000_000_000;
    proof {
        assert(985_600_280 * (j_star as int) <= 2_956_800_840_000_000_000_000) by (nonlinear_arith)
            requires j_star <= 3_000_000_000_000;
        vstd::arithmetic::div_mod::lemma_div_is_ordered(
            985_600_280 * (j_star as int), 2_956_800_840_000_000_000_000, 1_000_000_000);
        assert(2_956_800_840_000_000_000_000int / 1_000_000_000 == 2_956_800_840_000);
        vstd::arithmetic::div_mod::lemma_div_is_ordered(0, 985_600_280 * (j_star as int), 1_000_000_000);
        vstd::arithmetic::div_mod::lemma_div_multiples_vanish(0, 1_000_000_000);
    }
    let m0: u64 = 357_529_100 + (q as u64);
    (m0 % 360_000_000) as i64
}

/// The equation of the center, from the sines of one, two and three times
/// the mean anomaly, in micro-degrees.
pub open spec fn spec_equation_of_the_center(s1: int, s2: int, s3: int) -> int {
    div_t(19_148 * s1 + 200 * s2 + 3 * s3, 10_000)
}

/// See `spec_equation_of_the_center`.
pub fn equation_of_the_center(s1: i64, s2: i64, s3: i64) -> (c: i64)
    requires
        -1_000_000 <= s1 <= 1_000_000,
        -1_000_000 <= s2 <= 1_000_000,
        -1_000_000 <= s3 <= 1_000_000,
    ensures
        c == spec_equation_of_the_center(s1 as int, s2 as int, s3 as int),
        -1_935_100 <= c <= 1_935_100,
{
    let t: i64 = 19_148 * s1 + 200 * s2 + 3 * s3;
    proof {
        lemma_div_t_bound(t as int, 10_000, 19_351_000_000);
        assert(19_351_000_000int / 10_000 == 1_935_100);
    }
    div_trunc_i64(t, 10_000)
}

/// The ecliptic longitude from the mean anomaly and the equation of the
/// center, in micro-degrees.
pub open spec fn spec_ecliptic_longitude(m: int, c: int) -> int {
    (m + c + 180_000_000 + 102_937_200) % 360_000_000
}

/// See `spec_ecliptic_longitude`.
pub fn ecliptic_longitude(m: i64, c: i64) -> (lambda: i64)
    requires
        0 <= m < 360_000_000,
        -2_000_000 <= c <= 2_000_000,
    ensures
        lambda == spec_ecliptic_longitude(m as int, c as int),
        0 <= lambda < 360_000_000,
{
    let x: u64 = (m + c + 180_000_000 + 102_937_200) as u64;
    (x % 360_000_000) as i64
}

/// The sine of the sun's declination, from the sine of the ecliptic
/// longitude, in micro-units.
pub open spec fn spec_declination_sine(s_lambda: int) -> int {
    div_t(s_lambda * 397_784, 1_000_000)
}

/// See `spec_declination_sine`.
pub fn declination_sine(s_lambda: i64) -> (r: i64)
    requires
        -1_000_000 <= s_lambda <= 1_000_000,
    ensures
        r == spec_declination_sine(s_lambda as int),
        -397_784 <= r <= 397_784,
{
    let t: i64 = s_lambda * SIN_OBLIQUITY_MICRO;
    proof {
        lemma_div_t_bound(t as int, 1_000_000, 397_784_000_000);
        assert(397_784_000_000int / 1_000_000 == 397_784);
    }
    div_trunc_i64(t, 1_000_000)
}

/// The numerator of the hour-angle cosine, in micro-units.
pub open spec fn spec_hour_angle_numerator(sin_lat: int, sin_delta: int) -> int {
    -14_538 - div_t(sin_lat * sin_delta, 1_000_000)
}

/// The denominator of the hour-angle cosine, in micro-units.
pub open spec fn spec_hour_angle_denominator(cos_lat: int, cos_delta: int) -> int {
    div_t(cos_lat * cos_delta, 1_000_000)
}

/// The cosine of the hour angle, in micro-units.
pub open spec fn spec_hour_angle_cosine(sin_lat: int, sin_delta: int, cos_lat: int, cos_delta: int) -> int {
    div_t(
        spec_hour_angle_numerator(sin_lat, sin_delta) * 1_000_000,
        spec_hour_angle_denominator(cos_lat, cos_delta),
    )
}

/// The cosine of the sun's hour angle at rise and set, from the sines and
/// cosines of the latitude and of the declination, in micro-units.
///
/// Nothing is returned when the cosine is undefined (the horizon never
/// crosses the solar disc's altitude: a polar day or night, or a latitude
/// at a pole) — such inputs are rejected rather than approximated.
pub fn hour_angle_cosine(sin_lat: i64, sin_delta: i64, cos_lat: i64, cos_delta: i64) -> (r: Option<
    i64,
>)
    requires
        -1_000_000 <= sin_lat <= 1_000_000,
        -1_000_000 <= sin_delta <= 1_000_000,
        0 <= cos_lat <= 1_000_000,
        0 <= cos_delta <= 1_000_000,
    ensures
        ({
            let den = spec_hour_angle_denominator(cos_lat as int, cos_delta as int);
            let arg = spec_hour_angle_cosine(
                sin_lat as int, sin_delta as int, cos_lat as int, cos_delta as int);
            &&& (r is Some <==> (den > 0 && -1_000_000 <= arg <= 1_000_000))
            &&& (r matches Some(a) ==> a == arg)
        }),
{
    proof {
        assert(-1_000_000_000_000 <= sin_lat * sin_delta <= 1_000_000_000_000) by (nonlinear_arith)
            requires -1_000_000 <= sin_lat <= 1_000_000, -1_000_000 <= sin_delta <= 1_000_000;
        assert(0 <= cos_lat * cos_delta <= 1_000_000_000_000) by (nonlinear_arith)
            requires 0 <= cos_lat <= 1_000_000, 0 <= cos_delta <= 1_000_000;
        lemma_div_t_bound((sin_lat * sin_delta) as int, 1_000_000, 1_000_000_000_000);
        lemma_div_t_bound((cos_lat * cos_delta) as int, 1_000_000, 1_000_000_000_000);
        assert(1_000_000_000_000int / 1_000_000 == 1_000_000);
    }
    let num: i64 = SIN_ALTITUDE_MICRO - div_trunc_i64(sin_lat * sin_delta, 1_000_000);
    let den: i64 = div_trunc_i64(cos_lat * cos_delta, 1_000_000);
    if den == 0 {
        None
    } else {
        let arg: i64 = div_trunc_i64(num * 1_000_000, den);
        if arg < -1_000_000 || 1_000_000 < arg {
            None
        } else {
            Some(arg)
        }
    }
}

/// The Julian day number of the solar transit, in micro-days, from the
/// mean solar time and the sines of the mean anomaly and of twice the
/// ecliptic longitude.
pub open spec fn spec_transit(j_star: int, sin_m: int, sin_2lambda: int) -> int {
    2_451_545_000_000 + j_star + div_t(5_300 * sin_m, 1_000_000) - div_t(
        6_900 * sin_2lambda, 1_000_000)
}

/// See `spec_transit`.
pub fn transit(j_star: i64, sin_m: i64, sin_2lambda: i64) -> (jt: i64)
    requires
        1 <= j_star <= 3_000_000_000_000,
        -1_000_000 <= sin_m <= 1_000_000,
        -1_000_000 <= sin_2lambda <= 1_000_000,
    ensures
        jt == spec_transit(j_star as int, sin_m as int, sin_2lambda as int),
        2_451_544_987_801 <= jt <= 5_451_545_012_200,
{
    proof {
        lemma_div_t_bound((5_300 * sin_m) as int, 1_000_000, 5_300_000_000);
        lemma_div_t_bound((6_900 * sin_2lambda) as int, 1_000_000, 6_900_000_000);
        assert(5_300_000_000int / 1_000_000 == 5_300);
        assert(6_900_000_000int / 1_000_000 == 6_900);
    }
    J2000_MICRO + j_star + div_trunc_i64(5_300 * sin_m, 1_000_000) - div_trunc_i64(
        6_900 * sin_2lambda, 1_000_000)
}

/// The rise and set pair around a transit: the hour angle, as a fraction
/// of a full turn, taken off and added on, in micro-days.
pub fn sunrise_sunset(j_transit: i64, omega_micro: i64) -> (r: (i64, i64))
    requires
        0 <= j_transit <= 6_000_000_000_000,
        0 <= omega_micro <= 180_000_000,
    ensures
        r.0 == j_transit - omega_micro as int / 360,
        r.1 == j_transit + omega_micro as int / 360,
        r.0 <= j_transit <= r.1,
        r.1 - r.0 == 2 * (omega_micro as int / 360),
        r.1 - r.0 <= 1_000_000,
        360 <= omega_micro ==> r.0 < j_transit < r.1,
{
    let w: u64 = (omega_micro as u64) / 360;
    proof {
        vstd::arithmetic::div_mod::lemma_div_is_ordered(omega_micro as int, 180_000_000, 360);
        assert(180_000_000int / 360 == 500_000);
        vstd::arithmetic::div_mod::lemma_div_is_ordered(0, omega_micro as int, 360);
        vstd::arithmetic::div_mod::lemma_div_multiples_vanish(0, 360);
        if 360 <= omega_micro {
            vstd::arithmetic::div_mod::lemma_div_is_ordered(360, omega_micro as int, 360);
            vstd::arithmetic::div_mod::lemma_div_multiples_vanish(1, 360);
        }
    }
    (j_transit - (w as i64), j_transit + (w as i64))
}

/// The ordering law of a well-defined day: with an hour angle strictly
/// between zero and a half turn, the rise precedes the transit, the
/// transit precedes the set, and the daylight span is positive yet shorter
/// than a full day.
pub proof fn lemma_rise_precedes_set(j_transit: int, omega: int)
    requires
        360 <= omega < 180_000_000,
    ensures
        j_transit - omega / 360 < j_transit < j_transit + omega / 360,
        0 < (j_transit + omega / 360) - (j_transit - omega / 360) < 1_000_000,
{
    vstd::arithmetic::div_mod::lemma_div_is_ordered(360, omega, 360);
    vstd::arithmetic::div_mod::lemma_div_multiples_vanish(1, 360);
    vstd::arithmetic::div_mod::lemma_div_is_ordered(omega, 179_999_999, 360);
    assert(179_999_999int / 360 == 499_999);
}

/// The determinism law: every step of the chain is a function of its
/// arguments and of the trigonometric samples handed to it alone, so two
/// evaluations that agree on those agree on the computed rise and set.
pub proof fn lemma_pipeline_deterministic(
    today: int,
    longitude: int,
    s_m: int,
    s_2lambda: int,
    omega1: int,
    omega2: int,
)
    requires
        omega1 == omega2,
    ensures
        ({
            let jt1 = spec_transit(
                spec_mean_solar_time(spec_normalized_date(today), longitude), s_m, s_2lambda);
            let jt2 = spec_transit(
                spec_mean_solar_time(spec_normalized_date(today), longitude), s_m, s_2lambda);
            jt1 - omega1 / 360 == jt2 - omega2 / 360 && jt1 + omega1 / 360 == jt2 + omega2 / 360
        }),
{
}

} // verus!
