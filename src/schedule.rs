//! When the periodic workers run, and how a failed run is retried.
//!
//! Times are seconds since the Unix epoch, UTC.
use vstd::prelude::*;

verus! {

/// Seconds in one minute.
pub const MINUTE_SECS: i64 = 60;

/// Seconds in one day.
pub const DAY_SECS: i64 = 86400;

/// The image clean-up runs at this second of the day: 03:00 UTC.
pub const CLEANUP_SECOND_OF_DAY: i64 = 10800;

/// Start of the hour that holds `t`.
pub open spec fn hour_of(t: int) -> int {
    t - t % 3600
}

/// Start of the day that holds `t`.
pub open spec fn day_of(t: int) -> int {
    t - t % 86400
}

/// The next AMSAT update: the first of minutes 02, 17, 32 and 47 of the
/// current hour that lies after the current minute, else minute 02 of the
/// next hour; always at second zero.
pub open spec fn amsat_trigger(now: int) -> int {
    let minute = (now % 3600) / 60;
    let h = hour_of(now);
    if minute < 2 {
        h + 2 * 60
    } else if minute < 17 {
        h + 17 * 60
    } else if minute < 32 {
        h + 32 * 60
    } else if minute < 47 {
        h + 47 * 60
    } else {
        h + 3600 + 2 * 60
    }
}

/// The next image clean-up: 03:00 UTC today if that is still ahead, else
/// 03:00 UTC tomorrow.
pub open spec fn cleanup_trigger(now: int) -> int {
    let d = day_of(now);
    if now < d + 10800 {
        d + 10800
    } else {
        d + 86400 + 10800
    }
}

/// When the next AMSAT update is due.
pub fn next_amsat_trigger(now: i64) -> (r: i64)
    requires
        i64::MIN + 3600 <= now <= i64::MAX - 7200,
    ensures
        r as int == amsat_trigger(now as int),
        r > now,
{
    let within = now % 3600;
    let (hour, minute) = if within < 0 {
        (now - within - 3600, (within + 3600) / MINUTE_SECS)
    } else {
        (now - within, within / MINUTE_SECS)
    };
    assert(hour as int == hour_of(now as int));
    assert(minute as int == (now as int % 3600) / 60);
    if minute < 2 {
        hour + 2 * MINUTE_SECS
    } else if minute < 17 {
        hour + 17 * MINUTE_SECS
    } else if minute < 32 {
        hour + 32 * MINUTE_SECS
    } else if minute < 47 {
        hour + 47 * MINUTE_SECS
    } else {
        hour + 3600 + 2 * MINUTE_SECS
    }
}

/// When the next image clean-up is due.
pub fn next_cleanup_trigger(now: i64) -> (r: i64)
    requires
        i64::MIN + 86400 <= now <= i64::MAX - 2 * 86400,
    ensures
        r as int == cleanup_trigger(now as int),
        r > now,
{
    let within = now % DAY_SECS;
    let day = if within < 0 {
        now - within - DAY_SECS
    } else {
        now - within
    };
    assert(day as int == day_of(now as int));
    if now < day + CLEANUP_SECOND_OF_DAY {
        day + CLEANUP_SECOND_OF_DAY
    } else {
        day + DAY_SECS + CLEANUP_SECOND_OF_DAY
    }
}

/// When a worker with a fixed period of `interval_minutes` runs next.
pub fn next_fixed_trigger(now: i64, interval_minutes: u32) -> (r: i64)
    requires
        now <= i64::MAX - u32::MAX as int * 60,
    ensures
        r == now + interval_minutes as int * 60,
{
    now + (interval_minutes as i64) * MINUTE_SECS
}

/// How long to wait before another attempt.
#[derive(Debug, Clone, Copy, PartialEq, Eq, Structural)]
pub enum Backoff {
    /// The same wait after every failure.
    Fixed(u64),
    /// A wait of this many seconds times the number of the attempt that
    /// follows.
    PerAttempt(u64),
}

/// What the worker does after a failed attempt.
#[derive(Debug, Clone, Copy, PartialEq, Eq, Structural)]
pub enum RetryStep {
    /// Wait this many seconds, then try again.
    RetryAfter(u64),
    /// The attempts are used up: log the failure and wait for the next trigger.
    GiveUp,
}

/// The retry rule of a worker: at most `max_attempts` attempts per trigger.
#[derive(Debug, Clone, Copy, PartialEq, Eq, Structural)]
pub struct RetryPolicy {
    pub max_attempts: u32,
    pub backoff: Backoff,
}

pub open spec fn backoff_secs(b: Backoff, attempt: int) -> int {
    match b {
        Backoff::Fixed(s) => s as int,
        Backoff::PerAttempt(s) => s as int * (attempt + 1),
    }
}

pub open spec fn step_after(p: RetryPolicy, attempt: int) -> RetryStep {
    if attempt < p.max_attempts {
        RetryStep::RetryAfter(backoff_secs(p.backoff, attempt) as u64)
    } else {
        RetryStep::GiveUp
    }
}

impl RetryPolicy {
    /// The AMSAT update: three attempts, a minute apart.
    pub fn amsat_update() -> (r: RetryPolicy)
        ensures
            r.max_attempts == 3,
            r.backoff == Backoff::Fixed(60),
    {
        RetryPolicy { max_attempts: 3, backoff: Backoff::Fixed(60) }
    }

    /// The AMSAT status fetch: three attempts, waiting twice the number of
    /// the next attempt in seconds.
    pub fn amsat_fetch() -> (r: RetryPolicy)
        ensures
            r.max_attempts == 3,
            r.backoff == Backoff::PerAttempt(2),
    {
        RetryPolicy { max_attempts: 3, backoff: Backoff::PerAttempt(2) }
    }

    /// The feed workers: one attempt.
    pub fn single() -> (r: RetryPolicy)
        ensures
            r.max_attempts == 1,
            r.backoff == Backoff::Fixed(0),
    {
        RetryPolicy { max_attempts: 1, backoff: Backoff::Fixed(0) }
    }

    /// What follows the failure of attempt number `attempt` (from 1).
    pub fn after_failure(&self, attempt: u32) -> (r: RetryStep)
        requires
            attempt >= 1,
            match self.backoff {
                Backoff::Fixed(_) => true,
                Backoff::PerAttempt(s) => s as int * (attempt + 1) <= u64::MAX,
            },
        ensures
            r == step_after(*self, attempt as int),
    {
        if attempt < self.max_attempts {
            match self.backoff {
                Backoff::Fixed(s) => RetryStep::RetryAfter(s),
                Backoff::PerAttempt(s) => RetryStep::RetryAfter(s * (attempt as u64 + 1)),
            }
        } else {
            RetryStep::GiveUp
        }
    }
}

} // verus!
