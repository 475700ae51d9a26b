use suntimes::calendar::{
    datetime_from_civil_seconds, gregorian_from_jdn, jdn_from_gregorian, julian2datetime,
    leap_year, month_length, rebase_astronomical_to_civil, sun_length_hms, year_length, Date,
    LocalDateTime,
};

#[test]
fn jdn_of_known_dates() {
    assert_eq!(jdn_from_gregorian(Date { year: 2000, month: 1, day: 1 }), 2451545);
    assert_eq!(jdn_from_gregorian(Date { year: 2024, month: 3, day: 20 }), 2460390);
    assert_eq!(jdn_from_gregorian(Date { year: 1, month: 1, day: 1 }), 1721426);
    assert_eq!(jdn_from_gregorian(Date { year: 9999, month: 12, day: 31 }), 5373484);
    assert_eq!(jdn_from_gregorian(Date { year: 1582, month: 10, day: 15 }), 2299161);
}

#[test]
fn date_of_known_jdns() {
    assert_eq!(gregorian_from_jdn(2451545), Date { year: 2000, month: 1, day: 1 });
    assert_eq!(gregorian_from_jdn(2460389), Date { year: 2024, month: 3, day: 19 });
    assert_eq!(gregorian_from_jdn(1721426), Date { year: 1, month: 1, day: 1 });
    assert_eq!(gregorian_from_jdn(5373484), Date { year: 9999, month: 12, day: 31 });
}

#[test]
fn round_trip_date_to_jdn_to_date() {
    let samples = [
        Date { year: 2000, month: 2, day: 29 },
        Date { year: 1999, month: 12, day: 31 },
        Date { year: 2024, month: 3, day: 20 },
        Date { year: 1900, month: 2, day: 28 },
        Date { year: 9999, month: 12, day: 31 },
        Date { year: 1, month: 1, day: 1 },
    ];
    for d in samples {
        assert_eq!(gregorian_from_jdn(jdn_from_gregorian(d)), d);
    }
}

#[test]
fn round_trip_jdn_to_date_to_jdn() {
    // A stretch of days across a leap February and a year boundary.
    for j in 2451500..2452000 {
        assert_eq!(jdn_from_gregorian(gregorian_from_jdn(j)), j);
    }
    assert_eq!(jdn_from_gregorian(gregorian_from_jdn(1721426)), 1721426);
    assert_eq!(jdn_from_gregorian(gregorian_from_jdn(5373484)), 5373484);
}

#[test]
fn leap_year_rules() {
    assert!(leap_year(2000));
    assert!(!leap_year(1900));
    assert!(leap_year(2024));
    assert!(!leap_year(2023));
    assert!(!leap_year(2100));
    assert!(leap_year(2400));
    assert_eq!(month_length(2024, 2), 29);
    assert_eq!(month_length(2023, 2), 28);
    assert_eq!(month_length(2023, 12), 31);
    assert_eq!(year_length(2024), 366);
    assert_eq!(year_length(1900), 365);
}

#[test]
fn civil_seconds_decomposition() {
    let t = datetime_from_civil_seconds(2451545 * 86400 + 3661, 0);
    assert_eq!(t.date, Date { year: 2000, month: 1, day: 1 });
    assert_eq!((t.hour, t.minute, t.second), (1, 1, 1));
    assert_eq!(t.offset_seconds, 0);
}

#[test]
fn rebase_shifts_half_a_day_back() {
    let evening = LocalDateTime {
        date: Date { year: 2024, month: 3, day: 20 },
        hour: 18,
        minute: 0,
        second: 0,
        offset_seconds: 7200,
    };
    let r = rebase_astronomical_to_civil(evening);
    assert_eq!(r.date, Date { year: 2024, month: 3, day: 20 });
    assert_eq!((r.hour, r.minute, r.second), (6, 0, 0));
    assert_eq!(r.offset_seconds, 7200);

    let morning = LocalDateTime {
        date: Date { year: 2024, month: 3, day: 20 },
        hour: 6,
        minute: 0,
        second: 0,
        offset_seconds: 0,
    };
    let r = rebase_astronomical_to_civil(morning);
    assert_eq!(r.date, Date { year: 2024, month: 3, day: 19 });
    assert_eq!((r.hour, r.minute, r.second), (18, 0, 0));
}

#[test]
fn julian2datetime_known_value() {
    // JDN 2460389.75 is 06:00 UTC on 2024-03-20; the civil re-basing
    // labels it 06:00 on the 19th, the civil date of the day number.
    let t = julian2datetime(2_460_389_750_000, 0);
    assert_eq!(t.date, Date { year: 2024, month: 3, day: 19 });
    assert_eq!((t.hour, t.minute, t.second), (6, 0, 0));
    let t = julian2datetime(2_460_389_750_000, 3600);
    assert_eq!(t.date, Date { year: 2024, month: 3, day: 19 });
    assert_eq!((t.hour, t.minute, t.second), (7, 0, 0));
    assert_eq!(t.offset_seconds, 3600);
}

#[test]
fn julian2datetime_truncates_seconds() {
    // A fraction of 0.123456 days is 10666.5984 seconds: truncated, not rounded.
    let t = julian2datetime(2_460_389_123_456, 0);
    assert_eq!(t.date, Date { year: 2024, month: 3, day: 18 });
    assert_eq!((t.hour, t.minute, t.second), (14, 57, 46));
}

#[test]
fn sun_length_components() {
    let (h, m, s) = sun_length_hms(2_460_390_722_770, 2_460_391_232_040);
    assert_eq!((h, m, s), (12, 13, 20));
    assert_eq!(h * 3600 + m * 60 + s, 44000);
    let (h, m, s) = sun_length_hms(0, 509_271);
    assert_eq!((h, m, s), (12, 13, 21));
    let (h, m, s) = sun_length_hms(5, 5);
    assert_eq!((h, m, s), (0, 0, 0));
}
