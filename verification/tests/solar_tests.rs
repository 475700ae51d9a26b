use suntimes::calendar::julian2datetime;
use suntimes::calendar::sun_length_hms;
use suntimes::solar::{
    declination_sine, ecliptic_longitude, equation_of_the_center, hour_angle_cosine,
    mean_solar_time, normalized_date, solar_mean_anomaly, sunrise_sunset, transit, GeoCoordinate,
};

fn clamp_unit(v: i64) -> i64 {
    v.max(-1_000_000).min(1_000_000)
}

fn sin_micro(x_micro: i64) -> i64 {
    clamp_unit(((x_micro as f64 / 1e6).to_radians().sin() * 1e6).round() as i64)
}

fn cos_micro(x_micro: i64) -> i64 {
    clamp_unit(((x_micro as f64 / 1e6).to_radians().cos() * 1e6).round() as i64)
}

/// The full chain, with the trigonometric samples evaluated in floating
/// point and handed to the library's fixed-point steps.
fn rise_set(lat_micro: i64, long_micro: i64, today_micro: i64) -> Option<(i64, i64)> {
    let n = normalized_date(today_micro);
    let j_star = mean_solar_time(n, long_micro);
    let m = solar_mean_anomaly(j_star);
    let s1 = sin_micro(m);
    let s2 = sin_micro(2 * m);
    let s3 = sin_micro(3 * m);
    let c = equation_of_the_center(s1, s2, s3);
    let lambda = ecliptic_longitude(m, c);
    let sd = declination_sine(sin_micro(lambda));
    let delta = ((sd as f64 / 1e6).asin().to_degrees() * 1e6).round() as i64;
    let slat = sin_micro(lat_micro);
    let clat = cos_micro(lat_micro).max(0);
    let sdel = sin_micro(delta);
    let cdel = cos_micro(delta).max(0);
    let arg = hour_angle_cosine(slat, sdel, clat, cdel)?;
    let omega = (((arg as f64 / 1e6).acos().to_degrees() * 1e6).round() as i64)
        .max(0)
        .min(180_000_000);
    let jt = transit(j_star, s1, sin_micro(2 * lambda));
    Some(sunrise_sunset(jt, omega))
}

const LAT: i64 = 48_355_306; // 48 deg 21 min 19.1 sec north
const LONG: i64 = 9_906_083; // 9 deg 54 min 21.9 sec east
const TODAY: i64 = 2_460_390_000_000; // noon UTC, 2024-03-20

#[test]
fn reference_day_in_march() {
    let (rise, set) = rise_set(LAT, LONG, TODAY).unwrap();
    let r = julian2datetime(rise, 0);
    assert_eq!((r.date.year, r.date.month, r.date.day), (2024, 3, 20));
    let rs = r.hour * 3600 + r.minute * 60 + r.second;
    assert!((rs - (5 * 3600 + 20 * 60 + 47)).abs() <= 60, "sunrise {rs}");
    let s = julian2datetime(set, 0);
    assert_eq!((s.date.year, s.date.month, s.date.day), (2024, 3, 20));
    let ss = s.hour * 3600 + s.minute * 60 + s.second;
    assert!((ss - (17 * 3600 + 34 * 60 + 8)).abs() <= 60, "sunset {ss}");
}

#[test]
fn deterministic_pipeline() {
    let first = rise_set(LAT, LONG, TODAY).unwrap();
    let second = rise_set(LAT, LONG, TODAY).unwrap();
    assert_eq!(first, second);
}

#[test]
fn rise_precedes_set() {
    let (rise, set) = rise_set(LAT, LONG, TODAY).unwrap();
    assert!(rise < set);
    assert!(set - rise < 1_000_000);
    assert_eq!(
        sunrise_sunset(1_000_000_000, 90_000_000),
        (1_000_000_000 - 250_000, 1_000_000_000 + 250_000)
    );
}

#[test]
fn equator_equinox_daylight() {
    // On an equinox at the equator the day is close to twelve hours; the
    // -0.833 degree rise altitude stretches it by some minutes.
    let (rise, set) = rise_set(0, LONG, TODAY).unwrap();
    let (h, m, s) = sun_length_hms(rise, set);
    let total = h * 3600 + m * 60 + s;
    assert!(total >= 12 * 3600, "daylight {total}");
    assert!(total <= 12 * 3600 + 600, "daylight {total}");
}

#[test]
fn next_day_shifts_by_about_one() {
    let (rise1, set1) = rise_set(LAT, LONG, TODAY).unwrap();
    let (rise2, set2) = rise_set(LAT, LONG, TODAY + 1_000_000).unwrap();
    assert!((rise2 - rise1 - 1_000_000).abs() <= 10_000);
    assert!((set2 - set1 - 1_000_000).abs() <= 10_000);
}

#[test]
fn step_values() {
    assert_eq!(normalized_date(2_451_545_000_000), 1_000_000);
    assert_eq!(normalized_date(TODAY), 8_846_000_000);
    assert_eq!(mean_solar_time(8_846_000_000, LONG), 8_845_972_484);
    assert_eq!(mean_solar_time(1_000_000, 180_000_000), 500_000);
    assert_eq!(solar_mean_anomaly(1_000_000), 358_514_700);
    assert_eq!(equation_of_the_center(1_000_000, 0, 0), 1_914_800);
    assert_eq!(equation_of_the_center(-1_000_000, 0, 0), -1_914_800);
    assert_eq!(equation_of_the_center(0, 0, 0), 0);
    assert_eq!(ecliptic_longitude(0, 0), 282_937_200);
    assert_eq!(ecliptic_longitude(300_000_000, 1_000_000), 223_937_200);
    assert_eq!(declination_sine(1_000_000), 397_784);
    assert_eq!(declination_sine(-500_000), -198_892);
    assert_eq!(transit(1, 0, 0), 2_451_545_000_001);
    assert_eq!(transit(1_000_000, 1_000_000, -1_000_000), 2_451_546_012_200);
}

#[test]
fn hour_angle_at_the_equator() {
    assert_eq!(hour_angle_cosine(0, 0, 1_000_000, 1_000_000), Some(-14_538));
}

#[test]
fn hour_angle_rejects_a_pole() {
    // cos(latitude) of a pole is zero: the quotient is undefined.
    assert_eq!(hour_angle_cosine(1_000_000, 200_000, 0, 980_000), None);
}

#[test]
fn hour_angle_rejects_polar_day() {
    // A high southern latitude against a northern declination pushes the
    // cosine beyond one: no sunrise that day.
    assert_eq!(hour_angle_cosine(-900_000, 400_000, 300_000, 900_000), None);
}

#[test]
fn coordinate_ranges() {
    let g = GeoCoordinate::new(LAT, LONG).unwrap();
    assert_eq!(g.latitude_micro, LAT);
    assert_eq!(g.longitude_micro, LONG);
    assert!(GeoCoordinate::new(90_000_001, 0).is_none());
    assert!(GeoCoordinate::new(0, -180_000_001).is_none());
}
