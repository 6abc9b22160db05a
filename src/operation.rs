//! Evaluation-ready operations and what each does to a date-time.
use vstd::prelude::*;
use crate::datetime::{
    at_seconds, days_before_month, days_before_year, days_in_month, lemma_at_seconds,
    lemma_day_number_bounds, lemma_month_bounds, lemma_year_step, lemma_at_seconds_of, lemma_split_unique, max_seconds, month_length, DateTime,
    MAX_SECONDS, MAX_YEAR, MIN_YEAR,
};
use crate::token::TimeUnits;
use vstd::arithmetic::div_mod::{lemma_fundamental_div_mod, lemma_mod_multiples_vanish, lemma_mod_pos_bound, lemma_small_mod};

verus! {

/// Direction of a `Delta`.
#[derive(Clone, Copy, Debug, PartialEq, Eq, Structural)]
pub enum Sign {
    Plus,
    Minus,
}

/// One step of an expression after the anchor.
#[derive(Clone, Copy, Debug, PartialEq, Eq, Structural)]
pub enum Operation {
    /// Add or subtract `magnitude` whole units.
    Delta { sign: Sign, magnitude: u16, unit: TimeUnits },
    /// Move to the first instant of the period of `unit` that holds the date-time.
    SnapFloor { unit: TimeUnits },
    /// Move to the last instant of the period of `unit` that holds the date-time.
    SnapCeil { unit: TimeUnits },
}

/// Length in seconds of a unit of fixed duration; months and years have none.
pub open spec fn unit_seconds(u: TimeUnits) -> int {
    match u {
        TimeUnits::Sec => 1,
        TimeUnits::Min => 60,
        TimeUnits::Hour => 3600,
        TimeUnits::Day => 86400,
        TimeUnits::Week => 604800,
        _ => 0,
    }
}

pub open spec fn is_calendar_unit(u: TimeUnits) -> bool {
    u == TimeUnits::Month || u == TimeUnits::Year
}

pub open spec fn signed(sign: Sign, magnitude: u16) -> int {
    match sign {
        Sign::Plus => magnitude as int,
        Sign::Minus => -(magnitude as int),
    }
}

/// The date-time `n` seconds after the start of year 1, where one exists.
pub open spec fn at_checked(n: int) -> Option<DateTime> {
    if 0 <= n <= max_seconds() {
        Some(at_seconds(n))
    } else {
        None
    }
}

/// `k` months after `t`, on the same day of the month or, where the target
/// month is shorter, on its last day; the time of day is kept.
pub open spec fn add_months(t: DateTime, k: int) -> Option<DateTime> {
    let total = t.year * 12 + (t.month - 1) + k;
    let y = total / 12;
    let m = total % 12 + 1;
    if MIN_YEAR <= y <= MAX_YEAR {
        let dim = days_in_month(y, m);
        Some(
            DateTime {
                year: y as u32,
                month: m as u32,
                day: (if t.day <= dim { t.day as int } else { dim }) as u32,
                ..t
            },
        )
    } else {
        None
    }
}

/// `t` moved by `k` units of `u`.
pub open spec fn shifted(t: DateTime, k: int, u: TimeUnits) -> Option<DateTime> {
    match u {
        TimeUnits::Month => add_months(t, k),
        TimeUnits::Year => add_months(t, 12 * k),
        _ => at_checked(t.seconds() + k * unit_seconds(u)),
    }
}

/// The first instant of the period of `u` that holds `t`. Weeks start on Monday:
/// day 0 of the second count is a Monday, so whole weeks of seconds end on one.
pub open spec fn floored(t: DateTime, u: TimeUnits) -> DateTime {
    match u {
        TimeUnits::Month => DateTime { day: 1, hour: 0, minute: 0, second: 0, ..t },
        TimeUnits::Year => DateTime { month: 1, day: 1, hour: 0, minute: 0, second: 0, ..t },
        _ => at_seconds(t.seconds() - t.seconds() % unit_seconds(u)),
    }
}

/// The last instant of the period of `u` that holds `t`, where it is representable.
pub open spec fn ceiled(t: DateTime, u: TimeUnits) -> Option<DateTime> {
    match u {
        TimeUnits::Month => Some(
            DateTime {
                day: days_in_month(t.year as int, t.month as int) as u32,
                hour: 23,
                minute: 59,
                second: 59,
                ..t
            },
        ),
        TimeUnits::Year => Some(
            DateTime { month: 12, day: 31, hour: 23, minute: 59, second: 59, ..t },
        ),
        _ => at_checked(
            t.seconds() - t.seconds() % unit_seconds(u) + unit_seconds(u) - 1,
        ),
    }
}

/// What one operation makes of `t`; `None` where the result is not representable.
#[verifier::opaque]
pub open spec fn apply_op(t: DateTime, op: Operation) -> Option<DateTime> {
    match op {
        Operation::Delta { sign, magnitude, unit } => shifted(t, signed(sign, magnitude), unit),
        Operation::SnapFloor { unit } => Some(floored(t, unit)),
        Operation::SnapCeil { unit } => ceiled(t, unit),
    }
}

/// The operations applied to `t` in order; `None` as soon as one result is not
/// representable.
pub open spec fn apply_ops(t: DateTime, ops: Seq<Operation>) -> Option<DateTime>
    decreases ops.len(),
{
    if ops.len() == 0 {
        Some(t)
    } else {
        match apply_op(t, ops[0]) {
            Some(next) => apply_ops(next, ops.drop_first()),
            None => None,
        }
    }
}

fn unit_length(u: TimeUnits) -> (r: i64)
    ensures
        r == unit_seconds(u),
{
    match u {
        TimeUnits::Sec => 1,
        TimeUnits::Min => 60,
        TimeUnits::Hour => 3600,
        TimeUnits::Day => 86400,
        TimeUnits::Week => 604800,
        _ => 0,
    }
}

/// The date-time at second count `n`, where one exists.
fn at_checked_exec(n: i64) -> (r: Option<DateTime>)
    ensures
        r == at_checked(n as int),
        r matches Some(x) ==> x.wf(),
{
    if 0 <= n && n <= MAX_SECONDS {
        let r = DateTime::from_seconds(n);
        proof {
            lemma_at_seconds_of(r);
        }
        Some(r)
    } else {
        None
    }
}

fn add_months_exec(t: DateTime, k: i64) -> (r: Option<DateTime>)
    requires
        t.wf(),
        -786420 <= k <= 786420,
    ensures
        r == add_months(t, k as int),
        r matches Some(x) ==> x.wf(),
{
    let total: i64 = (t.year as i64) * 12 + (t.month as i64 - 1) + k;
    let y = total / 12;
    let m = total % 12 + 1;
    if MIN_YEAR as i64 <= y && y <= MAX_YEAR as i64 {
        let dim = month_length(y as u32, m as u32);
        let day = if t.day <= dim {
            t.day
        } else {
            dim
        };
        Some(DateTime { year: y as u32, month: m as u32, day, ..t })
    } else {
        None
    }
}

impl DateTime {
    /// This date-time moved by `magnitude` units of `unit` in the direction of `sign`.
    /// Months and years move on the calendar and clamp the day to the end of a
    /// shorter month; the other units add a fixed number of seconds.
    pub fn shift(&self, sign: Sign, magnitude: u16, unit: TimeUnits) -> (r: Option<DateTime>)
        requires
            self.wf(),
        ensures
            r == shifted(*self, signed(sign, magnitude), unit),
            r matches Some(x) ==> x.wf(),
    {
        let k: i64 = match sign {
            Sign::Plus => magnitude as i64,
            Sign::Minus => -(magnitude as i64),
        };
        match unit {
            TimeUnits::Month => add_months_exec(*self, k),
            TimeUnits::Year => add_months_exec(*self, 12 * k),
            _ => {
                let len = unit_length(unit);
                assert(-65535 * 604800 <= k * len <= 65535 * 604800) by (nonlinear_arith)
                    requires
                        -65535 <= k <= 65535,
                        0 <= len <= 604800,
                ;
                at_checked_exec(self.to_seconds() + k * len)
            },
        }
    }

    /// The first instant of the period of `unit` that holds this date-time.
    pub fn snap_floor(&self, unit: TimeUnits) -> (r: DateTime)
        requires
            self.wf(),
        ensures
            r == floored(*self, unit),
            r.wf(),
    {
        match unit {
            TimeUnits::Month => DateTime { day: 1, hour: 0, minute: 0, second: 0, ..*self },
            TimeUnits::Year => DateTime {
                month: 1,
                day: 1,
                hour: 0,
                minute: 0,
                second: 0,
                ..*self
            },
            _ => {
                let len = unit_length(unit);
                let s = self.to_seconds();
                let r = DateTime::from_seconds(s - s % len);
                proof {
                    lemma_at_seconds_of(r);
                }
                r
            },
        }
    }

    /// The last instant of the period of `unit` that holds this date-time, where
    /// it is representable.
    pub fn snap_ceil(&self, unit: TimeUnits) -> (r: Option<DateTime>)
        requires
            self.wf(),
        ensures
            r == ceiled(*self, unit),
            r matches Some(x) ==> x.wf(),
    {
        match unit {
            TimeUnits::Month => Some(
                DateTime {
                    day: month_length(self.year, self.month),
                    hour: 23,
                    minute: 59,
                    second: 59,
                    ..*self
                },
            ),
            TimeUnits::Year => Some(
                DateTime { month: 12, day: 31, hour: 23, minute: 59, second: 59, ..*self },
            ),
            _ => {
                let len = unit_length(unit);
                let s = self.to_seconds();
                at_checked_exec(s - s % len + len - 1)
            },
        }
    }
}

/// What one operation makes of `t`.
pub fn apply_operation(t: DateTime, op: Operation) -> (r: Option<DateTime>)
    requires
        t.wf(),
    ensures
        r == apply_op(t, op),
        r matches Some(x) ==> x.wf(),
{
    reveal(apply_op);
    match op {
        Operation::Delta { sign, magnitude, unit } => t.shift(sign, magnitude, unit),
        Operation::SnapFloor { unit } => Some(t.snap_floor(unit)),
        Operation::SnapCeil { unit } => t.snap_ceil(unit),
    }
}


proof fn lemma_period_start(s: int, len: int)
    requires
        0 <= s,
        0 < len,
    ensures
        0 <= s - s % len <= s,
        (s - s % len) % len == 0,
        (s - s % len + len - 1) - (s - s % len + len - 1) % len == s - s % len,
        s <= s - s % len + len - 1,
        (s - s % len + len) % len == 0,
{
    lemma_fundamental_div_mod(s, len);
    lemma_mod_pos_bound(s, len);
    let q = s / len;
    lemma_mod_multiples_vanish(q, 0, len);
    lemma_mod_multiples_vanish(q, len - 1, len);
    lemma_mod_multiples_vanish(q + 1, 0, len);
    assert(len * (q + 1) == len * q + len) by (nonlinear_arith);
    lemma_small_mod((len - 1) as nat, len as nat);
}

proof fn lemma_floor_fixed(t: DateTime, u: TimeUnits)
    requires
        t.wf(),
        !is_calendar_unit(u),
    ensures
        ({
            let s = t.seconds();
            let x = s - s % unit_seconds(u);
            &&& 0 <= x <= s <= max_seconds()
            &&& x % unit_seconds(u) == 0
            &&& floored(t, u) == at_seconds(x)
            &&& at_seconds(x).wf()
            &&& at_seconds(x).seconds() == x
        }),
{
    t.lemma_seconds_range();
    let s = t.seconds();
    lemma_period_start(s, unit_seconds(u));
    lemma_at_seconds(s - s % unit_seconds(u));
}

/// Snapping down to the start of a period is idempotent: a date-time already at
/// the start of its period of `u` stays where it is.
pub proof fn lemma_snap_floor_idempotent(t: DateTime, u: TimeUnits)
    requires
        t.wf(),
    ensures
        floored(floored(t, u), u) == floored(t, u),
{
    if !is_calendar_unit(u) {
        lemma_floor_fixed(t, u);
        let f = floored(t, u);
        lemma_floor_fixed(f, u);
    }
}

/// Snapping down and then up to the same unit gives the last instant of the
/// period that held the date-time: the same as snapping up at once, and a
/// date-time whose own period is that one.
pub proof fn lemma_snap_floor_then_ceil(t: DateTime, u: TimeUnits)
    requires
        t.wf(),
    ensures
        floored(t, u).wf(),
        ceiled(floored(t, u), u) == ceiled(t, u),
        ceiled(t, u) matches Some(c) ==> c.wf() && floored(c, u) == floored(t, u),
{
    if !is_calendar_unit(u) {
        lemma_floor_fixed(t, u);
        let f = floored(t, u);
        lemma_floor_fixed(f, u);
        let x = t.seconds() - t.seconds() % unit_seconds(u);
        let e = x + unit_seconds(u) - 1;
        lemma_period_start(t.seconds(), unit_seconds(u));
        if e <= max_seconds() {
            lemma_at_seconds(e);
        }
    }
}

proof fn lemma_snap_bounds_fixed(t: DateTime, u: TimeUnits)
    requires
        t.wf(),
        !is_calendar_unit(u),
    ensures
        floored(t, u).seconds() <= t.seconds(),
        ceiled(t, u) matches Some(c) ==> t.seconds() <= c.seconds() && (c.seconds() + 1
            <= max_seconds() ==> floored(at_seconds(c.seconds() + 1), u) != floored(t, u)),
{
    lemma_floor_fixed(t, u);
    let len = unit_seconds(u);
    let x = t.seconds() - t.seconds() % len;
    lemma_period_start(t.seconds(), len);
    let e = x + len - 1;
    if e <= max_seconds() {
        lemma_at_seconds(e);
        if e + 1 <= max_seconds() {
            lemma_at_seconds(e + 1);
            let n = at_seconds(e + 1);
            lemma_at_seconds(x + len);
            assert(floored(n, u) == at_seconds(x + len));
        }
    }
}

proof fn lemma_snap_bounds_month(t: DateTime)
    requires
        t.wf(),
    ensures
        floored(t, TimeUnits::Month).seconds() <= t.seconds(),
        ceiled(t, TimeUnits::Month) matches Some(c) ==> t.seconds() <= c.seconds() && (
        c.seconds() + 1 <= max_seconds() ==> floored(at_seconds(c.seconds() + 1), TimeUnits::Month)
            != floored(t, TimeUnits::Month)),
{
    let c = ceiled(t, TimeUnits::Month)->Some_0;
    if c.seconds() + 1 <= max_seconds() {
        lemma_at_seconds(c.seconds() + 1);
        let n = at_seconds(c.seconds() + 1);
        if n.year == t.year && n.month == t.month {
            assert(n.day_number() <= c.day_number());
            assert(n.seconds() <= c.seconds());
        }
    }
}

proof fn lemma_snap_bounds_year(t: DateTime)
    requires
        t.wf(),
    ensures
        floored(t, TimeUnits::Year).seconds() <= t.seconds(),
        ceiled(t, TimeUnits::Year) matches Some(c) ==> t.seconds() <= c.seconds() && (
        c.seconds() + 1 <= max_seconds() ==> floored(at_seconds(c.seconds() + 1), TimeUnits::Year)
            != floored(t, TimeUnits::Year)),
{
    let c = ceiled(t, TimeUnits::Year)->Some_0;
    lemma_year_step(t.year as int);
    lemma_month_bounds(t.year as int, 12);
    lemma_day_number_bounds(t);
    assert(c.day_number() == days_before_year(t.year + 1) - 1);
    assert(t.seconds() <= c.seconds());
    let f = floored(t, TimeUnits::Year);
    assert(f.day_number() == days_before_year(t.year as int));
    if c.seconds() + 1 <= max_seconds() {
        lemma_at_seconds(c.seconds() + 1);
        let n = at_seconds(c.seconds() + 1);
        lemma_day_number_bounds(n);
        if n.year == t.year {
            assert(n.day_number() <= c.day_number());
            assert(n.seconds() <= c.seconds());
        }
    }
}

/// The period of `u` that holds `t` runs from its floor to its ceiling: the
/// floor is not after `t`, the ceiling is not before it, and the second after
/// the ceiling belongs to another period.
pub proof fn lemma_snap_bounds(t: DateTime, u: TimeUnits)
    requires
        t.wf(),
    ensures
        floored(t, u).seconds() <= t.seconds(),
        ceiled(t, u) matches Some(c) ==> t.seconds() <= c.seconds() && (c.seconds() + 1
            <= max_seconds() ==> floored(at_seconds(c.seconds() + 1), u) != floored(t, u)),
{
    match u {
        TimeUnits::Month => lemma_snap_bounds_month(t),
        TimeUnits::Year => lemma_snap_bounds_year(t),
        _ => lemma_snap_bounds_fixed(t, u),
    }
}

/// Every operation keeps a date-time valid.
pub proof fn lemma_apply_op_wf(t: DateTime, op: Operation)
    requires
        t.wf(),
    ensures
        apply_op(t, op) matches Some(r) ==> r.wf(),
{
    reveal(apply_op);
    match op {
        Operation::Delta { sign, magnitude, unit } => {
            if !is_calendar_unit(unit) {
                let n = t.seconds() + signed(sign, magnitude) * unit_seconds(unit);
                if 0 <= n <= max_seconds() {
                    lemma_at_seconds(n);
                }
            }
        },
        Operation::SnapFloor { unit } => {
            if !is_calendar_unit(unit) {
                lemma_floor_fixed(t, unit);
            }
        },
        Operation::SnapCeil { unit } => {
            if !is_calendar_unit(unit) {
                let s = t.seconds();
                let n = s - s % unit_seconds(unit) + unit_seconds(unit) - 1;
                if 0 <= n <= max_seconds() {
                    lemma_at_seconds(n);
                }
            }
        },
    }
}

/// Applying `a` and then `b` is applying `a + b`.
pub proof fn lemma_apply_ops_append(t: DateTime, a: Seq<Operation>, b: Seq<Operation>)
    ensures
        apply_ops(t, a + b) == match apply_ops(t, a) {
            Some(m) => apply_ops(m, b),
            None => None,
        },
    decreases a.len(),
{
    if a.len() > 0 {
        assert((a + b).drop_first() =~= a.drop_first() + b);
        assert((a + b)[0] == a[0]);
        if let Some(next) = apply_op(t, a[0]) {
            lemma_apply_ops_append(next, a.drop_first(), b);
        }
    } else {
        assert(a + b =~= b);
    }
}

/// Operations applied to a valid date-time give a valid one.
pub proof fn lemma_apply_ops_wf(t: DateTime, ops: Seq<Operation>)
    requires
        t.wf(),
    ensures
        apply_ops(t, ops) matches Some(r) ==> r.wf(),
    decreases ops.len(),
{
    if ops.len() > 0 {
        lemma_apply_op_wf(t, ops[0]);
        if let Some(next) = apply_op(t, ops[0]) {
            lemma_apply_ops_wf(next, ops.drop_first());
        }
    }
}

/// The floor and ceiling laws, read as single operations.
pub proof fn lemma_snap_ops(t: DateTime, u: TimeUnits)
    requires
        t.wf(),
    ensures
        apply_op(t, Operation::SnapFloor { unit: u }) == Some(floored(t, u)),
        apply_op(floored(t, u), Operation::SnapFloor { unit: u }) == Some(floored(t, u)),
        apply_op(floored(t, u), Operation::SnapCeil { unit: u }) == apply_op(
            t,
            Operation::SnapCeil { unit: u },
        ),
{
    reveal(apply_op);
    lemma_snap_floor_idempotent(t, u);
    lemma_snap_floor_then_ceil(t, u);
}

/// Snapping down to the week gives midnight of a Monday (a day number that is
/// a multiple of seven), at most six days before the date-time.
pub proof fn lemma_week_floor_is_monday(t: DateTime)
    requires
        t.wf(),
    ensures
        ({
            let f = floored(t, TimeUnits::Week);
            &&& f.wf()
            &&& f.day_number() % 7 == 0
            &&& f.hour == 0 && f.minute == 0 && f.second == 0
            &&& t.day_number() - 6 <= f.day_number() <= t.day_number()
        }),
{
    lemma_floor_fixed(t, TimeUnits::Week);
    let f = floored(t, TimeUnits::Week);
    lemma_week_arith(t.seconds(), t.day_number(), t.time_of_day(), f.day_number(), f.time_of_day());
}

proof fn lemma_week_arith(s: int, dt: int, tt: int, df: int, tf: int)
    requires
        0 <= s,
        0 <= tt < 86400,
        0 <= tf < 86400,
        s == dt * 86400 + tt,
        df * 86400 + tf == s - s % 604800,
    ensures
        df % 7 == 0,
        tf == 0,
        dt - 6 <= df <= dt,
{
    lemma_fundamental_div_mod(s, 604800);
    let q = s / 604800;
    assert(s - s % 604800 == (7 * q) * 86400 + 0);
    lemma_split_unique(df, tf, 7 * q, 0, 86400);
    assert(s - 7 * q * 86400 < 604800);
    if dt - 6 > 7 * q {
        assert(dt * 86400 >= (7 * q + 7) * 86400) by (nonlinear_arith)
            requires
                dt >= 7 * q + 7,
        ;
    }
    if dt < 7 * q {
        assert(dt * 86400 + 86400 <= (7 * q) * 86400) by (nonlinear_arith)
            requires
                dt + 1 <= 7 * q,
        ;
    }
}

proof fn lemma_months_round_trip(t: DateTime, k: int)
    requires
        t.wf(),
        add_months(t, k) matches Some(r) && r.day == t.day,
    ensures
        add_months(add_months(t, k)->Some_0, -k) == Some(t),
{
    let r = add_months(t, k)->Some_0;
    let total = t.year * 12 + (t.month - 1) + k;
    assert(r.year * 12 + (r.month - 1) == total);
    let back = r.year * 12 + (r.month - 1) + (-k);
    assert(back == t.year * 12 + (t.month - 1));
    assert(back / 12 == t.year);
    assert(back % 12 + 1 == t.month);
}

proof fn lemma_seconds_round_trip(t: DateTime, k: int, len: int)
    requires
        t.wf(),
        0 <= t.seconds() + k * len <= max_seconds(),
    ensures
        at_checked(at_seconds(t.seconds() + k * len).seconds() + (-k) * len) == Some(t),
{
    let n = t.seconds() + k * len;
    lemma_at_seconds(n);
    assert((-k) * len == -(k * len)) by (nonlinear_arith);
    t.lemma_seconds_range();
    lemma_at_seconds_of(t);
}

/// Moving forward by `magnitude` units and back by as many restores the
/// date-time, wherever the forward move did not clamp the day of the month.
pub proof fn lemma_delta_round_trip(t: DateTime, magnitude: u16, u: TimeUnits)
    requires
        t.wf(),
        apply_op(t, Operation::Delta { sign: Sign::Plus, magnitude, unit: u }) matches Some(r) && (
        !is_calendar_unit(u) || r.day == t.day),
    ensures
        ({
            let r = apply_op(t, Operation::Delta { sign: Sign::Plus, magnitude, unit: u })->Some_0;
            apply_op(r, Operation::Delta { sign: Sign::Minus, magnitude, unit: u }) == Some(t)
        }),
{
    reveal(apply_op);
    let k = magnitude as int;
    match u {
        TimeUnits::Month => lemma_months_round_trip(t, k),
        TimeUnits::Year => {
            lemma_months_round_trip(t, 12 * k);
            assert(12 * (-k) == -(12 * k));
        },
        _ => lemma_seconds_round_trip(t, k, unit_seconds(u)),
    }
}

} // verus!
