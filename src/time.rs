//! Wall-clock readings, times of day and the clock the planner reads.
use vstd::prelude::*;

use crate::cli::TestArgs;

verus! {

/// Seconds in a civil day.
pub const SECS_PER_DAY: i64 = 86400;

/// The latest wall-clock reading the library handles: 9999-12-31 23:59:59,
/// counted in seconds since 1970-01-01 00:00 of the same wall clock.
pub const MAX_STAMP: i64 = 253402300799;

/// A wall-clock reading is a count of seconds since 1970-01-01 00:00 of the
/// local wall clock; one that the clock hands out lies in `0..=MAX_STAMP`.
pub open spec fn valid_stamp(t: int) -> bool {
    0 <= t <= MAX_STAMP
}

/// The time of day of a reading, in seconds since midnight.
pub open spec fn time_of(t: int) -> int {
    t % 86400
}

/// The reading at midnight that starts the day of `t`.
pub open spec fn midnight_of(t: int) -> int {
    t - t % 86400
}

/// Time of day of `t`, in seconds since midnight.
pub fn time_of_day(t: i64) -> (r: u32)
    requires
        valid_stamp(t as int),
    ensures
        r as int == time_of(t as int),
        r < 86400,
{
    (t % SECS_PER_DAY) as u32
}


/// The reading at `secs` past the midnight that starts the day of `t`.
pub fn on_day_of(t: i64, secs: u32) -> (r: i64)
    requires
        valid_stamp(t as int),
        secs < 86400,
    ensures
        r == midnight_of(t as int) + secs,
        valid_stamp(r as int),
        time_of(r as int) == secs,
{
    t - t % SECS_PER_DAY + secs as i64
}

/// Relies on jiff's `TryFrom<SystemTime>` for `Zoned`, `Zoned::datetime`
/// and `DateTime::duration_since`: the system's wall clock now, in its time
/// zone, as whole seconds since 1970-01-01 00:00 of that wall clock, or
/// `None` where jiff refuses the system time as out of its range. jiff's
/// civil datetimes end at 9999-12-31 23:59:59.999999999.
#[verifier::external_body]
fn wall_clock_now() -> (r: Option<i64>)
    ensures
        r matches Some(t) ==> t <= MAX_STAMP,
{
    let epoch = jiff::civil::datetime(1970, 1, 1, 0, 0, 0, 0);
    match jiff::Zoned::try_from(std::time::SystemTime::now()) {
        Ok(now) => Some(now.datetime().duration_since(epoch).as_secs()),
        Err(_) => None,
    }
}

/// A raw wall-clock reading as the library takes it: readings before 1970
/// are refused.
pub fn stamp_of(t: i64) -> (r: Option<i64>)
    requires
        t <= MAX_STAMP,
    ensures
        r == (if t >= 0 {
            Some(t)
        } else {
            None::<i64>
        }),
        r matches Some(u) ==> valid_stamp(u as int),
{
    if t >= 0 {
        Some(t)
    } else {
        None
    }
}

/// A clock that only moves when told to: it stands still at `current`
/// and steps forward by one work or one break duration at a time.
pub struct MockClock {
    pub current: i64,
    /// seconds
    pub break_duration: u64,
    /// seconds
    pub work_duration: u64,
}

/// Where the planner reads the time from.
pub enum Clock {
    /// The system's wall clock.
    Real,
    /// A clock driven by the caller, for simulated runs and tests.
    Mock(MockClock),
}

impl Clock {
    pub open spec fn wf(&self) -> bool {
        match self {
            Clock::Real => true,
            Clock::Mock(m) => valid_stamp(m.current as int),
        }
    }
}

/// Reads `clock`. A mock clock gives its current reading; the system clock
/// gives its reading when that lies in `0..=MAX_STAMP`, and `None` when the
/// system clock is set before 1970 or outside jiff's range.
pub fn zoned_now(clock: &Clock) -> (r: Option<i64>)
    requires
        clock.wf(),
    ensures
        r matches Some(t) ==> valid_stamp(t as int),
        clock matches Clock::Mock(m) ==> r == Some(m.current),
{
    match clock {
        Clock::Real => match wall_clock_now() {
            Some(t) => stamp_of(t),
            None => None,
        },
        Clock::Mock(m) => Some(m.current),
    }
}

/// A mock clock set to `program_start` (seconds past midnight) on the
/// system clock's current day, stepping by the given durations (seconds).
/// `None` when the system clock cannot be read as a time from 1970 on.
pub fn setup_mock_with(program_start: u32, break_duration: u64, work_duration: u64) -> (r: Option<
    Clock,
>)
    requires
        program_start < 86400,
    ensures
        r matches Some(c) ==> c.wf() && (c matches Clock::Mock(m) && m.break_duration
            == break_duration && m.work_duration == work_duration && exists|t: int|
            valid_stamp(t) && m.current == midnight_of(t) + program_start),
{
    match zoned_now(&Clock::Real) {
        Some(now) => Some(
            Clock::Mock(
                MockClock {
                    current: on_day_of(now, program_start),
                    break_duration,
                    work_duration,
                },
            ),
        ),
        None => None,
    }
}

/// Moves a mock clock on to the next break: forward by one work duration.
/// The system clock is left alone.
pub fn next_break(clock: &mut Clock)
    requires
        old(clock).wf(),
        *old(clock) matches Clock::Mock(m) ==> m.current + m.work_duration <= MAX_STAMP,
    ensures
        final(clock).wf(),
        match *old(clock) {
            Clock::Real => *final(clock) matches Clock::Real,
            Clock::Mock(m) => *final(clock) == Clock::Mock(
                MockClock { current: (m.current + m.work_duration) as i64, ..m },
            ),
        },
{
    match clock {
        Clock::Real => {},
        Clock::Mock(m) => {
            m.current = m.current + m.work_duration as i64;
        },
    }
}

/// Moves a mock clock on to the end of the break: forward by one break
/// duration. The system clock is left alone.
pub fn break_ends(clock: &mut Clock)
    requires
        old(clock).wf(),
        *old(clock) matches Clock::Mock(m) ==> m.current + m.break_duration <= MAX_STAMP,
    ensures
        final(clock).wf(),
        match *old(clock) {
            Clock::Real => *final(clock) matches Clock::Real,
            Clock::Mock(m) => *final(clock) == Clock::Mock(
                MockClock { current: (m.current + m.break_duration) as i64, ..m },
            ),
        },
{
    match clock {
        Clock::Real => {},
        Clock::Mock(m) => {
            m.current = m.current + m.break_duration as i64;
        },
    }
}

/// A mock clock for a simulated run; see `setup_mock_with`.
pub fn setup_mock_from_args(args: &TestArgs) -> (r: Option<Clock>)
    requires
        args.program_start < 86400,
    ensures
        r matches Some(c) ==> c.wf() && (c matches Clock::Mock(m) && m.break_duration
            == args.break_duration && m.work_duration == args.work_duration && exists|t: int|
            valid_stamp(t) && m.current == midnight_of(t) + args.program_start),
{
    setup_mock_with(args.program_start, args.break_duration, args.work_duration)
}

} // verus!
