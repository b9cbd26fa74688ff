//! Human-readable durations.

use vstd::prelude::*;
use crate::num::{decimal, i64_to_string, signed_decimal, u64_to_string};

verus! {

/// Whole seconds from `started` to `now` (both in milliseconds since the
/// epoch), truncated toward zero as `TimeDelta::num_seconds` does.
pub open spec fn elapsed_seconds(now: int, started: int) -> int {
    let d = now - started;
    if d >= 0 {
        d / 1000
    } else {
        -((-d) / 1000)
    }
}

/// How a number of seconds is shown: the largest whole unit among days,
/// hours and minutes, else seconds.
pub open spec fn seconds_text(s: int) -> Seq<char> {
    if s >= 86400 {
        decimal((s / 86400) as nat) + seq!['d']
    } else if s >= 3600 {
        decimal((s / 3600) as nat) + seq!['h']
    } else if s >= 60 {
        decimal((s / 60) as nat) + seq!['m']
    } else {
        signed_decimal(s) + seq!['s']
    }
}

/// The uptime text of something started at `started`, seen at `now`.
pub open spec fn duration_text(now: int, started: int) -> Seq<char> {
    seconds_text(elapsed_seconds(now, started))
}

/// The milliseconds from the Unix epoch to now on the system clock
/// (`SystemTime::now().duration_since(UNIX_EPOCH)`, as `Duration::as_millis`);
/// `None` when the clock is set before the epoch. Nothing is claimed of the
/// value: it depends on the clock.
#[verifier::external_body]
fn clock_millis() -> Option<u128> {
    match std::time::SystemTime::now().duration_since(std::time::UNIX_EPOCH) {
        Ok(d) => Some(d.as_millis()),
        Err(_) => None,
    }
}

/// The current time in milliseconds since the epoch, `None` when the clock
/// is before the epoch or too far after it for an `i64`.
fn now_millis() -> (r: Option<i64>)
    ensures
        r matches Some(t) ==> t >= 0,
{
    match clock_millis() {
        Some(ms) => if ms <= i64::MAX as u128 {
            Some(ms as i64)
        } else {
            None
        },
        None => None,
    }
}

/// Formats a number of seconds as its largest whole unit.
pub fn format_seconds(s: i64) -> (r: String)
    ensures
        r@ == seconds_text(s as int),
{
    let mut out;
    if s >= 86400 {
        out = u64_to_string((s / 86400) as u64);
        out.append("d");
    } else if s >= 3600 {
        out = u64_to_string((s / 3600) as u64);
        out.append("h");
    } else if s >= 60 {
        out = u64_to_string((s / 60) as u64);
        out.append("m");
    } else {
        out = i64_to_string(s);
        out.append("s");
    }
    proof {
        reveal_strlit("d");
        reveal_strlit("h");
        reveal_strlit("m");
        reveal_strlit("s");
    }
    out
}

/// The uptime text of something started at `started`, seen at `now`
/// (both in milliseconds since the epoch).
pub fn format_elapsed(now: i64, started: i64) -> (r: String)
    ensures
        r@ == duration_text(now as int, started as int),
{
    let d: i128 = now as i128 - started as i128;
    let secs: i128 = if d >= 0 {
        d / 1000
    } else {
        -((-d) / 1000)
    };
    assert(secs == elapsed_seconds(now as int, started as int));
    format_seconds(secs as i64)
}

/// The time since `started` (milliseconds since the epoch), as shown in
/// process listings; `None` when the clock cannot be read as milliseconds
/// since the epoch (set before it).
pub fn format_duration(started: i64) -> (r: Option<String>)
    ensures
        r matches Some(t) ==> exists|now: i64| now >= 0 && t@ == duration_text(now as int, started as int),
{
    match now_millis() {
        Some(now) => Some(format_elapsed(now, started)),
        None => None,
    }
}

} // verus!
