//! A proleptic Gregorian date-time with one-second resolution, and the
//! calendar arithmetic that expressions are evaluated with.
use vstd::prelude::*;

verus! {

/// Smallest year a `DateTime` can hold.
pub const MIN_YEAR: u32 = 1;

/// Largest year a `DateTime` can hold.
pub const MAX_YEAR: u32 = 9999;

pub open spec fn is_leap_year(y: int) -> bool {
    y % 4 == 0 && (y % 100 != 0 || y % 400 == 0)
}

pub open spec fn days_in_year(y: int) -> int {
    if is_leap_year(y) {
        366
    } else {
        365
    }
}

pub open spec fn days_in_month(y: int, m: int) -> int {
    if m == 2 {
        if is_leap_year(y) {
            29
        } else {
            28
        }
    } else if m == 4 || m == 6 || m == 9 || m == 11 {
        30
    } else {
        31
    }
}

/// Days of year `y` that lie before the first of month `m`.
pub open spec fn days_before_month(y: int, m: int) -> int {
    let common: int = if m <= 1 {
        0
    } else if m == 2 {
        31
    } else if m == 3 {
        59
    } else if m == 4 {
        90
    } else if m == 5 {
        120
    } else if m == 6 {
        151
    } else if m == 7 {
        181
    } else if m == 8 {
        212
    } else if m == 9 {
        243
    } else if m == 10 {
        273
    } else if m == 11 {
        304
    } else {
        334
    };
    if m > 2 && is_leap_year(y) {
        common + 1
    } else {
        common
    }
}

/// Days from 0001-01-01 to the first of January of year `y`.
pub open spec fn days_before_year(y: int) -> int {
    let p = y - 1;
    365 * p + p / 4 - p / 100 + p / 400
}

pub open spec fn seconds_per_day() -> int {
    86400
}

/// Second count of 9999-12-31T23:59:59, the last representable instant.
pub open spec fn max_seconds() -> int {
    days_before_year(MAX_YEAR + 1) * seconds_per_day() - 1
}

/// A calendar date and time of day, in one fixed time zone.
#[derive(Clone, Copy, Debug, PartialEq, Eq, Structural)]
pub struct DateTime {
    pub year: u32,
    pub month: u32,
    pub day: u32,
    pub hour: u32,
    pub minute: u32,
    pub second: u32,
}

impl DateTime {
    /// The fields name an existing date between years 1 and 9999 and a time of day.
    pub open spec fn wf(self) -> bool {
        &&& MIN_YEAR <= self.year <= MAX_YEAR
        &&& 1 <= self.month <= 12
        &&& 1 <= self.day <= days_in_month(self.year as int, self.month as int)
        &&& self.hour < 24
        &&& self.minute < 60
        &&& self.second < 60
    }

    /// Days since 0001-01-01, which was a Monday.
    pub open spec fn day_number(self) -> int {
        days_before_year(self.year as int) + days_before_month(self.year as int, self.month as int)
            + self.day - 1
    }

    pub open spec fn time_of_day(self) -> int {
        self.hour * 3600 + self.minute * 60 + self.second
    }

    /// Seconds since 0001-01-01T00:00:00.
    pub open spec fn seconds(self) -> int {
        self.day_number() * seconds_per_day() + self.time_of_day()
    }
}

/// The date-time whose second count is `n`; for `0 <= n <= max_seconds()` there is
/// exactly one.
pub open spec fn at_seconds(n: int) -> DateTime {
    choose|t: DateTime| t.wf() && t.seconds() == n
}

proof fn lemma_div4_step(p: int)
    requires
        p >= 0,
    ensures
        (p + 1) / 4 == p / 4 + (if (p + 1) % 4 == 0 { 1int } else { 0 }),
{
}

proof fn lemma_div100_step(p: int)
    requires
        p >= 0,
    ensures
        (p + 1) / 100 == p / 100 + (if (p + 1) % 100 == 0 { 1int } else { 0 }),
{
}

proof fn lemma_div400_step(p: int)
    requires
        p >= 0,
    ensures
        (p + 1) / 400 == p / 400 + (if (p + 1) % 400 == 0 { 1int } else { 0 }),
{
}

pub proof fn lemma_year_step(y: int)
    requires
        y >= 1,
    ensures
        days_before_year(y + 1) == days_before_year(y) + days_in_year(y),
{
    lemma_div4_step(y - 1);
    lemma_div100_step(y - 1);
    lemma_div400_step(y - 1);
}

pub proof fn lemma_year_monotone(a: int, b: int)
    requires
        1 <= a < b,
    ensures
        days_before_year(a + 1) <= days_before_year(b),
    decreases b - a,
{
    lemma_year_step(a);
    if a + 1 < b {
        lemma_year_monotone(a + 1, b);
        lemma_year_step(a + 1);
    }
}

pub proof fn lemma_month_bounds(y: int, m: int)
    requires
        1 <= m <= 12,
    ensures
        days_before_month(y, m) + days_in_month(y, m) <= days_in_year(y),
        m < 12 ==> days_before_month(y, m + 1) == days_before_month(y, m) + days_in_month(y, m),
        m == 12 ==> days_before_month(y, m) + days_in_month(y, m) == days_in_year(y),
{
}

proof fn lemma_month_monotone(y: int, a: int, b: int)
    requires
        1 <= a < b <= 12,
    ensures
        days_before_month(y, a) + days_in_month(y, a) <= days_before_month(y, b),
    decreases b - a,
{
    lemma_month_bounds(y, a);
    if a + 1 < b {
        lemma_month_monotone(y, a + 1, b);
        lemma_month_bounds(y, a + 1);
    }
}

/// Where a valid date falls: inside its year, and inside its month.
pub proof fn lemma_day_number_bounds(t: DateTime)
    requires
        t.wf(),
    ensures
        days_before_year(t.year as int) <= t.day_number() < days_before_year(t.year + 1),
        0 <= t.time_of_day() < seconds_per_day(),
        0 <= t.day_number(),
        0 <= t.seconds() <= max_seconds(),
{
    lemma_year_step(t.year as int);
    lemma_month_bounds(t.year as int, t.month as int);
    if t.year < MAX_YEAR {
        lemma_year_monotone(t.year as int, MAX_YEAR as int + 1);
    }
    assert(t.day_number() * 86400 + 86400 <= days_before_year(MAX_YEAR + 1) * 86400)
        by (nonlinear_arith)
        requires
            t.day_number() + 1 <= days_before_year(MAX_YEAR + 1),
    ;
    assert(0 <= t.day_number() * 86400) by (nonlinear_arith)
        requires
            0 <= t.day_number(),
    ;
}

pub proof fn lemma_split_unique(q1: int, r1: int, q2: int, r2: int, d: int)
    requires
        d > 0,
        0 <= r1 < d,
        0 <= r2 < d,
        q1 * d + r1 == q2 * d + r2,
    ensures
        q1 == q2,
        r1 == r2,
{
    if q1 < q2 {
        assert(q1 * d + d <= q2 * d) by (nonlinear_arith)
            requires
                q1 < q2,
                d > 0,
        ;
    } else if q2 < q1 {
        assert(q2 * d + d <= q1 * d) by (nonlinear_arith)
            requires
                q2 < q1,
                d > 0,
        ;
    }
}

/// Two valid date-times with the same second count are the same.
pub proof fn lemma_seconds_injective(a: DateTime, b: DateTime)
    requires
        a.wf(),
        b.wf(),
        a.seconds() == b.seconds(),
    ensures
        a == b,
{
    lemma_day_number_bounds(a);
    lemma_day_number_bounds(b);
    lemma_split_unique(a.day_number(), a.time_of_day(), b.day_number(), b.time_of_day(), 86400);
    lemma_split_unique(
        a.hour as int,
        a.minute * 60 + a.second,
        b.hour as int,
        b.minute * 60 + b.second,
        3600,
    );
    lemma_split_unique(a.minute as int, a.second as int, b.minute as int, b.second as int, 60);
    if a.year < b.year {
        lemma_year_monotone(a.year as int, b.year as int);
    } else if b.year < a.year {
        lemma_year_monotone(b.year as int, a.year as int);
    }
    assert(a.year == b.year);
    if a.month < b.month {
        lemma_month_monotone(a.year as int, a.month as int, b.month as int);
    } else if b.month < a.month {
        lemma_month_monotone(a.year as int, b.month as int, a.month as int);
    }
}

/// A valid date-time is the one its second count names.
pub proof fn lemma_at_seconds_of(t: DateTime)
    requires
        t.wf(),
    ensures
        at_seconds(t.seconds()) == t,
{
    let c = at_seconds(t.seconds());
    assert(c.wf() && c.seconds() == t.seconds());
    lemma_seconds_injective(c, t);
}

proof fn lemma_find_year(days: int, y: int) -> (r: int)
    requires
        1 <= y <= MAX_YEAR,
        days_before_year(y) <= days < days_before_year(MAX_YEAR + 1),
    ensures
        y <= r <= MAX_YEAR,
        days_before_year(r) <= days < days_before_year(r + 1),
    decreases MAX_YEAR - y,
{
    if y == MAX_YEAR || days < days_before_year(y + 1) {
        y
    } else {
        lemma_find_year(days, y + 1)
    }
}

proof fn lemma_find_month(y: int, doy: int, m: int) -> (r: int)
    requires
        1 <= m <= 12,
        days_before_month(y, m) <= doy < days_in_year(y),
    ensures
        m <= r <= 12,
        days_before_month(y, r) <= doy < days_before_month(y, r) + days_in_month(y, r),
    decreases 12 - m,
{
    lemma_month_bounds(y, m);
    if m == 12 || doy < days_before_month(y, m + 1) {
        m
    } else {
        lemma_find_month(y, doy, m + 1)
    }
}

/// Every second count from 0 to `max_seconds()` names a valid date-time.
pub proof fn lemma_at_seconds(n: int)
    requires
        0 <= n <= max_seconds(),
    ensures
        at_seconds(n).wf(),
        at_seconds(n).seconds() == n,
{
    lemma_split_seconds(n);
    let days = n / 86400;
    let rem = n % 86400;
    let y = lemma_find_year(days, 1);
    lemma_year_step(y);
    let doy = days - days_before_year(y);
    let m = lemma_find_month(y, doy, 1);
    let t = DateTime {
        year: y as u32,
        month: m as u32,
        day: (doy - days_before_month(y, m) + 1) as u32,
        hour: (rem / 3600) as u32,
        minute: ((rem % 3600) / 60) as u32,
        second: (rem % 60) as u32,
    };
    assert(t.day_number() == days);
    assert(t.wf() && t.seconds() == n);
}

fn days_before_year_exec(y: u32) -> (r: i64)
    requires
        1 <= y <= MAX_YEAR + 1,
    ensures
        r == days_before_year(y as int),
{
    let p = (y - 1) as i64;
    365 * p + p / 4 - p / 100 + p / 400
}

fn is_leap_year_exec(y: u32) -> (r: bool)
    ensures
        r == is_leap_year(y as int),
{
    y % 4 == 0 && (y % 100 != 0 || y % 400 == 0)
}

/// Number of days in month `m` of year `y`.
pub fn month_length(y: u32, m: u32) -> (r: u32)
    ensures
        r == days_in_month(y as int, m as int),
{
    if m == 2 {
        if is_leap_year_exec(y) {
            29
        } else {
            28
        }
    } else if m == 4 || m == 6 || m == 9 || m == 11 {
        30
    } else {
        31
    }
}

fn days_before_month_exec(y: u32, m: u32) -> (r: u32)
    ensures
        r == days_before_month(y as int, m as int),
{
    let common: u32 = if m <= 1 {
        0
    } else if m == 2 {
        31
    } else if m == 3 {
        59
    } else if m == 4 {
        90
    } else if m == 5 {
        120
    } else if m == 6 {
        151
    } else if m == 7 {
        181
    } else if m == 8 {
        212
    } else if m == 9 {
        243
    } else if m == 10 {
        273
    } else if m == 11 {
        304
    } else {
        334
    };
    if m > 2 && is_leap_year_exec(y) {
        common + 1
    } else {
        common
    }
}

/// Second count of 9999-12-31T23:59:59.
pub const MAX_SECONDS: i64 = 315537897599;

proof fn lemma_max_seconds()
    ensures
        max_seconds() == MAX_SECONDS,
{
}

impl DateTime {
    /// A valid date-time has a second count between 0 and `max_seconds()`.
    pub proof fn lemma_seconds_range(self)
        requires
            self.wf(),
        ensures
            0 <= self.seconds() <= max_seconds(),
    {
        lemma_day_number_bounds(self);
    }

    /// The date-time with the given fields, where they name a valid one.
    pub fn new(year: u32, month: u32, day: u32, hour: u32, minute: u32, second: u32) -> (r: Option<
        DateTime,
    >)
        ensures
            r matches Some(t) ==> t.wf() && t == (DateTime { year, month, day, hour, minute, second }),
            r is None ==> !(DateTime { year, month, day, hour, minute, second }).wf(),
    {
        if MIN_YEAR <= year && year <= MAX_YEAR && 1 <= month && month <= 12 && 1 <= day && day
            <= month_length(year, month) && hour < 24 && minute < 60 && second < 60 {
            Some(DateTime { year, month, day, hour, minute, second })
        } else {
            None
        }
    }

    /// Seconds since 0001-01-01T00:00:00.
    pub fn to_seconds(&self) -> (r: i64)
        requires
            self.wf(),
        ensures
            r == self.seconds(),
            0 <= r <= MAX_SECONDS,
    {
        proof {
            lemma_day_number_bounds(*self);
            lemma_max_seconds();
        }
        let dn = days_before_year_exec(self.year) + days_before_month_exec(self.year, self.month) as i64
            + self.day as i64 - 1;
        dn * 86400 + (self.hour as i64) * 3600 + (self.minute as i64) * 60 + self.second as i64
    }

    /// The date-time that lies `n` seconds after 0001-01-01T00:00:00.
    pub fn from_seconds(n: i64) -> (r: DateTime)
        requires
            0 <= n <= MAX_SECONDS,
        ensures
            r.wf(),
            r.seconds() == n,
    {
        proof {
            lemma_max_seconds();
            lemma_split_seconds(n as int);
        }
        let days = n / 86400;
        let rem = n % 86400;
        let y = year_of_day(days);
        let doy = (days - days_before_year_exec(y)) as u32;
        let m = month_of_day(y, doy);
        let d = doy - days_before_month_exec(y, m) + 1;
        let r = DateTime {
            year: y,
            month: m,
            day: d,
            hour: (rem / 3600) as u32,
            minute: ((rem % 3600) / 60) as u32,
            second: (rem % 60) as u32,
        };
        assert(r.day_number() == days);
        r
    }
}

proof fn lemma_split_seconds(n: int)
    requires
        0 <= n <= max_seconds(),
    ensures
        0 <= n / 86400 < days_before_year(MAX_YEAR + 1),
        n == (n / 86400) * 86400 + n % 86400,
        n % 86400 == (n % 86400) / 3600 * 3600 + ((n % 86400) % 3600) / 60 * 60 + (n % 86400)
            % 60,
        (n % 86400) / 3600 < 24,
{
    assert(n / 86400 < days_before_year(MAX_YEAR + 1)) by (nonlinear_arith)
        requires
            0 <= n <= days_before_year(MAX_YEAR + 1) * 86400 - 1,
    ;
    let r = n % 86400;
    assert(r % 60 == (r % 3600) % 60);
}

/// The year in which day number `days` falls.
fn year_of_day(days: i64) -> (y: u32)
    requires
        0 <= days < days_before_year(MAX_YEAR + 1),
    ensures
        MIN_YEAR <= y <= MAX_YEAR,
        days_before_year(y as int) <= days < days_before_year(y + 1),
{
    let mut y: u32 = (days / 366) as u32 + 1;
    assert(days_before_year(y as int) <= days) by {
        let p = y - 1;
        assert(366 * p <= days);
    }
    if y > MAX_YEAR {
        proof {
            lemma_year_monotone(MAX_YEAR as int, y as int);
            lemma_year_step(MAX_YEAR as int);
        }
        assert(false);
    }
    while y < MAX_YEAR && days_before_year_exec(y + 1) <= days
        invariant
            1 <= y <= MAX_YEAR,
            days_before_year(y as int) <= days < days_before_year(MAX_YEAR + 1),
        decreases MAX_YEAR - y,
    {
        y = y + 1;
    }
    y
}

/// The month of year `y` in which its day `doy` (counted from 0) falls.
fn month_of_day(y: u32, doy: u32) -> (m: u32)
    requires
        doy < days_in_year(y as int),
    ensures
        1 <= m <= 12,
        days_before_month(y as int, m as int) <= doy < days_before_month(y as int, m as int)
            + days_in_month(y as int, m as int),
{
    let mut m: u32 = 1;
    while m < 12 && days_before_month_exec(y, m + 1) <= doy
        invariant
            1 <= m <= 12,
            days_before_month(y as int, m as int) <= doy,
        decreases 12 - m,
    {
        m = m + 1;
    }
    proof {
        lemma_month_bounds(y as int, m as int);
    }
    m
}

} // verus!
