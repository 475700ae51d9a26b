//! Gregorian calendar dates and their Julian day numbers.
//!
//! A Julian day number (JDN) counts whole days from a fixed epoch; the
//! Gregorian date carrying a given JDN is recovered by an exact integer
//! inverse of the closed-form day count.

use vstd::prelude::*;

verus! {

/// A Gregorian calendar date.
#[derive(Clone, Copy, PartialEq, Eq, Structural, Debug)]
pub struct Date {
    pub year: i64,
    pub month: i64,
    pub day: i64,
}

pub open spec fn is_leap_year(y: int) -> bool {
    (y % 4 == 0 && y % 100 != 0) || y % 400 == 0
}

pub open spec fn days_in_month(y: int, m: int) -> int {
    if m == 2 {
        if is_leap_year(y) {
            29
        } else {
            28
        }
    } else if m == 4 || m == 6 || m == 9 || m == 11 {
        30
    } else {
        31
    }
}

pub open spec fn days_in_year(y: int) -> int {
    if is_leap_year(y) {
        366
    } else {
        365
    }
}

impl Date {
    /// A date this library works on: a Gregorian date between the years 1 and 9999.
    pub open spec fn valid(self) -> bool {
        &&& 1 <= self.year <= 9999
        &&& 1 <= self.month <= 12
        &&& 1 <= self.day <= days_in_month(self.year as int, self.month as int)
    }
}

/// The Julian day number of the Gregorian date `(y, m, d)`: the closed-form
/// day count, exact for every valid date of the years 1 through 9999.
pub open spec fn jdn_of(y: int, m: int, d: int) -> int {
    if m <= 2 {
        (1461 * (y + 4799)) / 4 + (367 * (m + 10)) / 12 - (3 * ((y + 4899) / 100)) / 4 + d - 32075
    } else {
        (1461 * (y + 4800)) / 4 + (367 * (m - 2)) / 12 - (3 * ((y + 4900) / 100)) / 4 + d - 32075
    }
}

pub open spec fn date_jdn(d: Date) -> int {
    jdn_of(d.year as int, d.month as int, d.day as int)
}

/// The smallest JDN this library converts: January 1 of the year 1.
pub const JDN_MIN: i64 = 1721426;

/// The largest JDN this library converts: December 31 of the year 9999.
pub const JDN_MAX: i64 = 5373484;

pub fn leap_year(y: i64) -> (r: bool)
    requires
        1 <= y,
    ensures
        r == is_leap_year(y as int),
{
    let yu: u64 = y as u64;
    yu % 4 == 0 && yu % 100 != 0 || yu % 400 == 0
}

pub fn month_length(y: i64, m: i64) -> (r: i64)
    requires
        1 <= y,
        1 <= m <= 12,
    ensures
        r == days_in_month(y as int, m as int),
{
    if m == 2 {
        if leap_year(y) {
            29
        } else {
            28
        }
    } else if m == 4 || m == 6 || m == 9 || m == 11 {
        30
    } else {
        31
    }
}

pub fn year_length(y: i64) -> (r: i64)
    requires
        1 <= y,
    ensures
        r == days_in_year(y as int),
{
    if leap_year(y) {
        366
    } else {
        365
    }
}

/// The Julian day number of a valid Gregorian date.
pub fn jdn_from_gregorian(date: Date) -> (j: i64)
    requires
        date.valid(),
    ensures
        j == date_jdn(date),
        JDN_MIN <= j <= JDN_MAX,
{
    proof {
        lemma_jdn_of_bounds(date.year as int, date.month as int, date.day as int);
    }
    let y: u64 = date.year as u64;
    let m: u64 = date.month as u64;
    let d: u64 = date.day as u64;
    if m <= 2 {
        let t1: u64 = (1461 * (y + 4799)) / 4;
        let t2: u64 = (367 * (m + 10)) / 12;
        let t3: u64 = (3 * ((y + 4899) / 100)) / 4;
        (t1 + t2 + d - t3 - 32075) as i64
    } else {
        let t1: u64 = (1461 * (y + 4800)) / 4;
        let t2: u64 = (367 * (m - 2)) / 12;
        let t3: u64 = (3 * ((y + 4900) / 100)) / 4;
        (t1 + t2 + d - t3 - 32075) as i64
    }
}

/// The closed-form day count stays within `[JDN_MIN, JDN_MAX]` on valid dates.
pub proof fn lemma_jdn_of_bounds(y: int, m: int, d: int)
    requires
        1 <= y <= 9999,
        1 <= m <= 12,
        1 <= d <= days_in_month(y, m),
    ensures
        JDN_MIN <= jdn_of(y, m, d) <= JDN_MAX,
{
    assert(1461 * (y + 4799) <= 1461 * 14798) by (nonlinear_arith)
        requires y <= 9999;
    assert(1461 * 4800 <= 1461 * (y + 4799)) by (nonlinear_arith)
        requires 1 <= y;
    assert(1461 * (y + 4800) <= 1461 * 14799) by (nonlinear_arith)
        requires y <= 9999;
    assert(1461 * 4801 <= 1461 * (y + 4800)) by (nonlinear_arith)
        requires 1 <= y;
    assert((y + 4899) / 100 <= 148) by {
        vstd::arithmetic::div_mod::lemma_div_is_ordered(y + 4899, 14898, 100);
    }
    assert(49 <= (y + 4899) / 100) by {
        vstd::arithmetic::div_mod::lemma_div_is_ordered(4900, y + 4899, 100);
    }
    assert((y + 4900) / 100 <= 148) by {
        vstd::arithmetic::div_mod::lemma_div_is_ordered(y + 4900, 14899, 100);
    }
    assert(49 <= (y + 4900) / 100) by {
        vstd::arithmetic::div_mod::lemma_div_is_ordered(4901, y + 4900, 100);
    }
    assert(jdn_of(1, 1, 1) == 1721426);
    assert(jdn_of(9999, 12, 31) == 5373484);
}

/// Stepping the dividend of the quadrennial term: one more year adds 365
/// days, or 366 when the step crosses a fourth multiple.
proof fn lemma_div_1461(a: int)
    requires
        0 <= a,
    ensures
        (1461 * (a + 1)) / 4 == (1461 * a) / 4 + 365 + (if a % 4 == 3 { 1int } else { 0int }),
{
    let q = a / 4;
    let r = a % 4;
    vstd::arithmetic::div_mod::lemma_fundamental_div_mod(a, 4);
    assert(a == 4 * q + r);
    assert(0 <= r < 4);
    assert(1461 * a == (1461 * q + 365 * r) * 4 + r);
    vstd::arithmetic::div_mod::lemma_fundamental_div_mod_converse_div(1461 * a, 4, 1461 * q + 365 * r, r);
    if r < 3 {
        assert(1461 * (a + 1) == (1461 * q + 365 * r + 365) * 4 + (r + 1));
        vstd::arithmetic::div_mod::lemma_fundamental_div_mod_converse_div(
            1461 * (a + 1), 4, 1461 * q + 365 * r + 365, r + 1);
    } else {
        assert(1461 * (a + 1) == (1461 * q + 1461) * 4 + 0);
        vstd::arithmetic::div_mod::lemma_fundamental_div_mod_converse_div(
            1461 * (a + 1), 4, 1461 * q + 1461, 0);
    }
}

/// Stepping a dividend by one under division by 100.
proof fn lemma_div_100_step(x: int)
    requires
        0 <= x,
    ensures
        (x + 1) / 100 == x / 100 + (if x % 100 == 99 { 1int } else { 0int }),
{
    let q = x / 100;
    let r = x % 100;
    vstd::arithmetic::div_mod::lemma_fundamental_div_mod(x, 100);
    if r < 99 {
        vstd::arithmetic::div_mod::lemma_fundamental_div_mod_converse_div(x + 1, 100, q, r + 1);
    } else {
        vstd::arithmetic::div_mod::lemma_fundamental_div_mod_converse_div(x + 1, 100, q + 1, 0);
    }
}

/// Stepping the dividend of the century term.
proof fn lemma_div_3q4_step(q: int)
    requires
        0 <= q,
    ensures
        (3 * (q + 1)) / 4 == (3 * q) / 4 + (if q % 4 == 0 { 0int } else { 1int }),
{
    let p = q / 4;
    let s = q % 4;
    vstd::arithmetic::div_mod::lemma_fundamental_div_mod(q, 4);
    assert(q == 4 * p + s);
    assert(0 <= s < 4);
    if s == 0 {
        vstd::arithmetic::div_mod::lemma_fundamental_div_mod_converse_div(3 * q, 4, 3 * p, 0);
        vstd::arithmetic::div_mod::lemma_fundamental_div_mod_converse_div(3 * (q + 1), 4, 3 * p, 3);
    } else if s == 1 {
        vstd::arithmetic::div_mod::lemma_fundamental_div_mod_converse_div(3 * q, 4, 3 * p, 3);
        vstd::arithmetic::div_mod::lemma_fundamental_div_mod_converse_div(3 * (q + 1), 4, 3 * p + 1, 2);
    } else if s == 2 {
        vstd::arithmetic::div_mod::lemma_fundamental_div_mod_converse_div(3 * q, 4, 3 * p + 1, 2);
        vstd::arithmetic::div_mod::lemma_fundamental_div_mod_converse_div(3 * (q + 1), 4, 3 * p + 2, 1);
    } else {
        vstd::arithmetic::div_mod::lemma_fundamental_div_mod_converse_div(3 * q, 4, 3 * p + 2, 1);
        vstd::arithmetic::div_mod::lemma_fundamental_div_mod_converse_div(3 * (q + 1), 4, 3 * p + 3, 0);
    }
}

/// The quadrennial term of the day count grows by 365 days per year, 366
/// across a leap-aligned year.
proof fn lemma_quad_step(y: int)
    requires
        1 <= y,
    ensures
        (1461 * (y + 4800)) / 4 - (1461 * (y + 4799)) / 4
            == 365 + (if y % 4 == 0 { 1int } else { 0int }),
{
    lemma_div_1461(y + 4799);
    let k = y / 4;
    let r = y % 4;
    vstd::arithmetic::div_mod::lemma_fundamental_div_mod(y, 4);
    if r == 0 {
        vstd::arithmetic::div_mod::lemma_fundamental_div_mod_converse_mod(y + 4799, 4, k + 1199, 3);
    } else {
        vstd::arithmetic::div_mod::lemma_fundamental_div_mod_converse_mod(y + 4799, 4, k + 1200, r - 1);
    }
}

/// The century term of the day count: it steps exactly at century years
/// that are not fourth-century years.
proof fn lemma_cent_step(y: int)
    requires
        1 <= y,
    ensures
        (3 * ((y + 4900) / 100)) / 4 - (3 * ((y + 4899) / 100)) / 4
            == (if y % 100 == 0 && y % 400 != 0 { 1int } else { 0int }),
{
    let k = y / 100;
    let s = y % 100;
    vstd::arithmetic::div_mod::lemma_fundamental_div_mod(y, 100);
    assert(y == 100 * k + s);
    if s == 0 {
        vstd::arithmetic::div_mod::lemma_fundamental_div_mod_converse_mod(y + 4899, 100, k + 48, 99);
        vstd::arithmetic::div_mod::lemma_fundamental_div_mod_converse_div(y + 4899, 100, k + 48, 99);
    } else {
        vstd::arithmetic::div_mod::lemma_fundamental_div_mod_converse_mod(y + 4899, 100, k + 49, s - 1);
    }
    lemma_div_100_step(y + 4899);
    if s == 0 {
        // The quotient steps; whether the century term steps depends on k mod 4.
        let q = (y + 4899) / 100;
        assert(q == k + 48);
        assert((y + 4900) / 100 == q + 1);
        lemma_div_3q4_step(q);
        let t = k / 4;
        let u = k % 4;
        vstd::arithmetic::div_mod::lemma_fundamental_div_mod(k, 4);
        assert(k == 4 * t + u);
        assert(0 <= u < 4);
        vstd::arithmetic::div_mod::lemma_fundamental_div_mod_converse_mod(q, 4, t + 12, u);
        assert(q % 4 == u);
        assert(y == 400 * t + 100 * u);
        vstd::arithmetic::div_mod::lemma_fundamental_div_mod_converse_mod(y, 400, t, 100 * u);
        assert(y % 400 == 100 * u);
    } else {
        assert((y + 4900) / 100 == (y + 4899) / 100);
    }
}

/// A year is leap exactly when the quadrennial step fires and the century
/// step does not.
proof fn lemma_leap_decomp(y: int)
    requires
        1 <= y,
    ensures
        (if is_leap_year(y) { 1int } else { 0int })
            == (if y % 4 == 0 { 1int } else { 0int })
                - (if y % 100 == 0 && y % 400 != 0 { 1int } else { 0int }),
{
    if y % 100 == 0 {
        let k = y / 100;
        vstd::arithmetic::div_mod::lemma_fundamental_div_mod(y, 100);
        assert(y == 100 * k);
        vstd::arithmetic::div_mod::lemma_fundamental_div_mod_converse_mod(y, 4, 25 * k, 0);
    }
    if y % 400 == 0 {
        let k = y / 400;
        vstd::arithmetic::div_mod::lemma_fundamental_div_mod(y, 400);
        assert(y == 400 * k);
        vstd::arithmetic::div_mod::lemma_fundamental_div_mod_converse_mod(y, 100, 4 * k, 0);
        vstd::arithmetic::div_mod::lemma_fundamental_div_mod_converse_mod(y, 4, 100 * k, 0);
    }
}

/// January 1 of the next year lies one year's worth of days further on.
pub proof fn lemma_year_step(y: int)
    requires
        1 <= y,
    ensures
        jdn_of(y + 1, 1, 1) == jdn_of(y, 1, 1) + days_in_year(y),
{
    lemma_quad_step(y);
    lemma_cent_step(y);
    lemma_leap_decomp(y);
}

/// The first day of the next month lies one month's worth of days further on.
pub proof fn lemma_month_step(y: int, m: int)
    requires
        1 <= y,
        1 <= m <= 11,
    ensures
        jdn_of(y, m + 1, 1) == jdn_of(y, m, 1) + days_in_month(y, m),
{
    if m == 2 {
        lemma_quad_step(y);
        lemma_cent_step(y);
        lemma_leap_decomp(y);
    }
}

/// January 1 of the next year lies 31 days past December 1.
pub proof fn lemma_dec_step(y: int)
    requires
        1 <= y,
    ensures
        jdn_of(y + 1, 1, 1) == jdn_of(y, 12, 1) + 31,
{
}

/// The Gregorian date of a Julian day number: the exact inverse of
/// `jdn_from_gregorian` on the supported range.
pub fn gregorian_from_jdn(j: i64) -> (d: Date)
    requires
        JDN_MIN <= j <= JDN_MAX,
    ensures
        d.valid(),
        date_jdn(d) == j,
{
    let mut y: i64 = 1;
    let mut cur: i64 = JDN_MIN;
    proof {
        assert(jdn_of(1, 1, 1) == 1721426);
    }
    let mut dy: i64 = year_length(y);
    while cur + dy <= j
        invariant
            1 <= y <= 9999,
            cur == jdn_of(y as int, 1, 1),
            cur <= j,
            JDN_MIN <= j <= JDN_MAX,
            dy == days_in_year(y as int),
        decreases j - cur,
    {
        proof {
            if y == 9999 {
                assert(jdn_of(9999, 1, 1) == 5373120);
                assert(false);
            }
            lemma_year_step(y as int);
        }
        cur = cur + dy;
        y = y + 1;
        dy = year_length(y);
    }
    proof {
        lemma_year_step(y as int);
    }
    let mut m: i64 = 1;
    let mut dm: i64 = month_length(y, m);
    while cur + dm <= j
        invariant
            1 <= y <= 9999,
            1 <= m <= 12,
            cur == jdn_of(y as int, m as int, 1),
            cur <= j,
            j < jdn_of(y as int + 1, 1, 1),
            dm == days_in_month(y as int, m as int),
        decreases j - cur,
    {
        proof {
            if m == 12 {
                lemma_dec_step(y as int);
                assert(false);
            }
            lemma_month_step(y as int, m as int);
        }
        cur = cur + dm;
        m = m + 1;
        dm = month_length(y, m);
    }
    let day: i64 = j - cur + 1;
    Date { year: y, month: m, day }
}

/// First days of months grow with the month.
proof fn lemma_month_chain(y: int, m1: int, m2: int)
    requires
        1 <= y,
        1 <= m1 <= m2 <= 12,
    ensures
        jdn_of(y, m1, 1) <= jdn_of(y, m2, 1),
        m1 < m2 ==> jdn_of(y, m1, 1) < jdn_of(y, m2, 1),
    decreases m2 - m1,
{
    if m1 < m2 {
        lemma_month_chain(y, m1, m2 - 1);
        lemma_month_step(y, m2 - 1);
    }
}

/// Every day of a year lies between its January 1 and the next year's.
proof fn lemma_date_in_year(y: int, m: int, d: int)
    requires
        1 <= y,
        1 <= m <= 12,
        1 <= d <= days_in_month(y, m),
    ensures
        jdn_of(y, 1, 1) <= jdn_of(y, m, d) < jdn_of(y + 1, 1, 1),
{
    lemma_month_chain(y, 1, m);
    lemma_dec_step(y);
    if m < 12 {
        lemma_month_step(y, m);
        lemma_month_chain(y, m + 1, 12);
    }
}

/// First days of years grow with the year.
proof fn lemma_year_chain(y1: int, y2: int)
    requires
        1 <= y1 <= y2,
    ensures
        jdn_of(y1, 1, 1) <= jdn_of(y2, 1, 1),
    decreases y2 - y1,
{
    if y1 < y2 {
        lemma_year_chain(y1, y2 - 1);
        lemma_year_step(y2 - 1);
    }
}

/// Round trip: the day count separates valid dates, so a date is the only
/// one that its own Julian day number converts back to.
pub proof fn lemma_jdn_round_trip(d1: Date, d2: Date)
    requires
        d1.valid(),
        d2.valid(),
        date_jdn(d1) == date_jdn(d2),
    ensures
        d1 == d2,
{
    let (y1, m1, dd1) = (d1.year as int, d1.month as int, d1.day as int);
    let (y2, m2, dd2) = (d2.year as int, d2.month as int, d2.day as int);
    lemma_date_in_year(y1, m1, dd1);
    lemma_date_in_year(y2, m2, dd2);
    if y1 < y2 {
        lemma_year_chain(y1 + 1, y2);
        assert(false);
    }
    if y2 < y1 {
        lemma_year_chain(y2 + 1, y1);
        assert(false);
    }
    if m1 < m2 {
        lemma_month_step(y1, m1);
        lemma_month_chain(y1, m1 + 1, m2);
        assert(false);
    }
    if m2 < m1 {
        lemma_month_step(y1, m2);
        lemma_month_chain(y1, m2 + 1, m1);
        assert(false);
    }
}

/// A calendar date-time with a fixed offset from UTC, in seconds.
#[derive(Clone, Copy, PartialEq, Eq, Structural, Debug)]
pub struct LocalDateTime {
    pub date: Date,
    pub hour: i64,
    pub minute: i64,
    pub second: i64,
    pub offset_seconds: i64,
}

impl LocalDateTime {
    pub open spec fn valid(self) -> bool {
        &&& self.date.valid()
        &&& 0 <= self.hour < 24
        &&& 0 <= self.minute < 60
        &&& 0 <= self.second < 60
        &&& -86400 < self.offset_seconds < 86400
    }
}

/// The position of a date-time on its local civil timeline, in seconds:
/// days are counted by the Julian day number of the civil date, from its
/// midnight.
pub open spec fn civil_seconds(t: LocalDateTime) -> int {
    date_jdn(t.date) * 86400 + t.hour * 3600 + t.minute * 60 + t.second
}

/// The date-time `n` seconds along the civil timeline, carrying the given
/// UTC offset.
pub fn datetime_from_civil_seconds(n: i64, offset_seconds: i64) -> (t: LocalDateTime)
    requires
        JDN_MIN * 86400 <= n < (JDN_MAX + 1) * 86400,
        -86400 < offset_seconds < 86400,
    ensures
        t.valid(),
        civil_seconds(t) == n,
        t.offset_seconds == offset_seconds,
        date_jdn(t.date) == n as int / 86400,
        t.hour == (n as int % 86400) / 3600,
        t.minute == ((n as int % 86400) % 3600) / 60,
        t.second == (n as int % 86400) % 60,
{
    let day: i64 = ((n as u64) / 86400) as i64;
    let rem: u64 = (n as u64) % 86400;
    proof {
        vstd::arithmetic::div_mod::lemma_fundamental_div_mod(n as int, 86400);
        vstd::arithmetic::div_mod::lemma_div_is_ordered(JDN_MIN * 86400, n as int, 86400);
        vstd::arithmetic::div_mod::lemma_div_is_ordered(n as int, (JDN_MAX + 1) * 86400 - 1, 86400);
        vstd::arithmetic::div_mod::lemma_div_multiples_vanish(JDN_MIN as int, 86400);
        vstd::arithmetic::div_mod::lemma_div_multiples_vanish_fancy(JDN_MAX as int, 86399, 86400);
        assert((86400 * (JDN_MAX as int) + 86399) / 86400 == JDN_MAX);
    }
    let date = gregorian_from_jdn(day);
    let hour: i64 = (rem / 3600) as i64;
    let r3: u64 = rem % 3600;
    let minute: i64 = (r3 / 60) as i64;
    let second: i64 = (r3 % 60) as i64;
    proof {
        vstd::arithmetic::div_mod::lemma_fundamental_div_mod(rem as int, 3600);
        vstd::arithmetic::div_mod::lemma_fundamental_div_mod(r3 as int, 60);
        vstd::arithmetic::div_mod::lemma_div_is_ordered(rem as int, 86399, 3600);
        vstd::arithmetic::div_mod::lemma_div_is_ordered(r3 as int, 3599, 60);
        vstd::arithmetic::div_mod::lemma_mod_multiples_vanish(
            60 * (rem as int / 3600), r3 as int, 60);
        assert(60 * (60 * (rem as int / 3600)) == 3600 * (rem as int / 3600));
    }
    LocalDateTime { date, hour, minute, second, offset_seconds }
}

/// The civil re-basing of an astronomical date-time: twelve hours forward,
/// then one calendar day back — together, twelve hours back along the
/// civil timeline. The offset is untouched.
pub fn rebase_astronomical_to_civil(t: LocalDateTime) -> (r: LocalDateTime)
    requires
        t.valid(),
        JDN_MIN + 1 <= date_jdn(t.date),
    ensures
        r.valid(),
        civil_seconds(r) == civil_seconds(t) + 43200 - 86400,
        r.offset_seconds == t.offset_seconds,
{
    let dj: i64 = jdn_from_gregorian(t.date);
    let n: i64 = dj * 86400 + t.hour * 3600 + t.minute * 60 + t.second + 43200 - 86400;
    datetime_from_civil_seconds(n, t.offset_seconds)
}

/// The whole seconds of a day fraction split into hours, then minutes,
/// then seconds, exactly as successive floor-and-remainder extraction of
/// the fraction itself: whole hours of `f/1000000` of a day, whole minutes
/// of what remains, whole seconds of what remains then.
pub proof fn lemma_hms_successive_extraction(f: int)
    requires
        0 <= f < 1_000_000,
    ensures
        seconds_of_day_fraction(f) / 3600 == (24 * f) / 1_000_000,
        (seconds_of_day_fraction(f) % 3600) / 60
            == (1440 * f) / 1_000_000 - 60 * ((24 * f) / 1_000_000),
        seconds_of_day_fraction(f) % 60
            == (86400 * f) / 1_000_000 - 60 * ((1440 * f) / 1_000_000),
{
    let ts = seconds_of_day_fraction(f);
    assert(ts / 3600 == (24 * f) / 1_000_000) by {
        vstd::arithmetic::div_mod::lemma_div_denominator(86400 * f, 1_000_000, 3600);
        vstd::arithmetic::div_mod::lemma_div_denominator(3600 * (24 * f), 3600, 1_000_000);
        vstd::arithmetic::div_mod::lemma_div_multiples_vanish(24 * f, 3600);
        assert(86400 * f == 3600 * (24 * f));
        assert(1_000_000 * 3600 == 3600 * 1_000_000);
    }
    assert(ts / 60 == (1440 * f) / 1_000_000) by {
        vstd::arithmetic::div_mod::lemma_div_denominator(86400 * f, 1_000_000, 60);
        vstd::arithmetic::div_mod::lemma_div_denominator(60 * (1440 * f), 60, 1_000_000);
        vstd::arithmetic::div_mod::lemma_div_multiples_vanish(1440 * f, 60);
        assert(86400 * f == 60 * (1440 * f));
        assert(1_000_000 * 60 == 60 * 1_000_000);
    }
    assert((ts % 3600) / 60 == ts / 60 - 60 * (ts / 3600)) by {
        vstd::arithmetic::div_mod::lemma_fundamental_div_mod(ts, 3600);
        crate::arith::lemma_div_add_multiple(60 * (ts / 3600), ts % 3600, 60);
        assert(60 * (60 * (ts / 3600)) == 3600 * (ts / 3600));
    }
    vstd::arithmetic::div_mod::lemma_fundamental_div_mod(ts, 60);
}

/// One day of the fixed-point scale: a day number in micro-days.
pub const MICROS_PER_DAY: i64 = 1_000_000;

/// The whole seconds that a day fraction of `f` micro-days reaches, with
/// seconds truncated, not rounded.
pub open spec fn seconds_of_day_fraction(f: int) -> int {
    (86400 * f) / 1_000_000
}

/// The local calendar date-time of a fractional Julian day number, given
/// in micro-days, at a fixed UTC offset.
///
/// The date is the Gregorian date of the whole-day part; the day fraction
/// becomes a time of day by truncation to whole seconds; the label is read
/// as UTC, shifted to the local offset, and re-based from the astronomical
/// day (starting at noon) to the civil day before it.
pub fn julian2datetime(j_micro: i64, offset_seconds: i64) -> (t: LocalDateTime)
    requires
        (JDN_MIN + 2) * MICROS_PER_DAY <= j_micro <= (JDN_MAX - 1) * MICROS_PER_DAY,
        -86400 < offset_seconds < 86400,
    ensures
        t.valid(),
        t.offset_seconds == offset_seconds,
        civil_seconds(t) == (j_micro as int / 1_000_000) * 86400
            + seconds_of_day_fraction(j_micro as int % 1_000_000) + offset_seconds + 43200
            - 86400,
{
    let day: i64 = ((j_micro as u64) / 1_000_000) as i64;
    let f: u64 = (j_micro as u64) % 1_000_000;
    let ts: i64 = ((86400u64 * f) / 1_000_000) as i64;
    proof {
        vstd::arithmetic::div_mod::lemma_fundamental_div_mod(j_micro as int, 1_000_000);
        vstd::arithmetic::div_mod::lemma_div_is_ordered(
            (JDN_MIN + 2) * (MICROS_PER_DAY as int), j_micro as int, 1_000_000);
        vstd::arithmetic::div_mod::lemma_div_is_ordered(
            j_micro as int, (JDN_MAX - 1) * (MICROS_PER_DAY as int), 1_000_000);
        vstd::arithmetic::div_mod::lemma_div_multiples_vanish(JDN_MIN + 2, 1_000_000);
        vstd::arithmetic::div_mod::lemma_div_multiples_vanish(JDN_MAX - 1, 1_000_000);
        vstd::arithmetic::div_mod::lemma_div_is_ordered(86400 * (f as int), (86400 * 999_999) as int, 1_000_000);
        assert((86400 * 999_999) / 1_000_000 == 86399);
    }
    let n0: i64 = day * 86400 + ts + offset_seconds;
    let t0 = datetime_from_civil_seconds(n0, offset_seconds);
    proof {
        vstd::arithmetic::div_mod::lemma_fundamental_div_mod_converse_div(
            n0 as int, 86400, date_jdn(t0.date),
            t0.hour * 3600 + t0.minute * 60 + t0.second);
        vstd::arithmetic::div_mod::lemma_div_is_ordered(
            (JDN_MIN + 2) * 86400 - 86399, n0 as int, 86400);
        assert(((JDN_MIN + 2) * 86400 - 86399) / 86400 == JDN_MIN + 1);
    }
    rebase_astronomical_to_civil(t0)
}

/// The hour, minute and second components of the span between a rise and a
/// set given in micro-days: whole hours, whole minutes past those hours,
/// whole seconds past those minutes.
pub fn sun_length_hms(rise_micro: i64, set_micro: i64) -> (r: (i64, i64, i64))
    requires
        0 <= rise_micro <= set_micro,
        set_micro - rise_micro <= 10 * MICROS_PER_DAY,
    ensures
        ({
            let t = seconds_of_day_fraction(set_micro - rise_micro);
            &&& r.0 == t / 3600
            &&& r.1 == t / 60 - 60 * (t / 3600)
            &&& r.2 == t - 60 * (t / 60)
            &&& 3600 * r.0 + 60 * r.1 + r.2 == t
            &&& 0 <= r.0
            &&& 0 <= r.1 < 60
            &&& 0 <= r.2 < 60
        }),
{
    let d: u64 = (set_micro - rise_micro) as u64;
    let ts: u64 = (86400u64 * d) / 1_000_000;
    let hours: u64 = ts / 3600;
    let minutes: u64 = ts / 60;
    proof {
        let t = seconds_of_day_fraction(set_micro - rise_micro);
        vstd::arithmetic::div_mod::lemma_fundamental_div_mod(t, 3600);
        vstd::arithmetic::div_mod::lemma_fundamental_div_mod(t, 60);
        vstd::arithmetic::div_mod::lemma_fundamental_div_mod(t % 3600, 60);
        vstd::arithmetic::div_mod::lemma_div_is_ordered(t % 3600, 3599, 60);
        crate::arith::lemma_div_add_multiple(60 * (t / 3600), t % 3600, 60);
        assert(60 * (60 * (t / 3600)) == 3600 * (t / 3600));
        vstd::arithmetic::div_mod::lemma_div_is_ordered(86400 * (d as int), (86400 * 10_000_000) as int, 1_000_000);
        assert((86400 * 10_000_000) / 1_000_000 == 864_000);
    }
    let h: i64 = hours as i64;
    let m: i64 = (minutes - 60 * hours) as i64;
    let s: i64 = (ts - 60 * minutes) as i64;
    (h, m, s)
}

} // verus!
