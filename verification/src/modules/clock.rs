//! The clock module: time zones and the minute tick.
use vstd::prelude::*;

use chrono_tz::Tz;

verus! {

/// An IANA time zone of `chrono_tz`.
#[verifier::external_type_specification]
#[verifier::external_body]
pub struct ExTz(Tz);

/// The time zone that `chrono_tz` parses from an IANA name, if it knows the name.
pub uninterp spec fn tz_named(name: Seq<char>) -> Option<Tz>;

/// `chrono_tz`'s `FromStr` for `Tz`: a lookup of `name` in its fixed table of IANA zone
/// names; the result depends on `name` alone.
#[verifier::external_body]
fn tz_from_name(name: &str) -> (r: Option<Tz>)
    ensures
        r == tz_named(name@),
{
    name.parse::<Tz>().ok()
}

/// Runtime configuration for the clock module.
#[derive(Debug, Clone)]
pub struct ClockConfig {
    pub formats: Vec<String>,
    pub timezones: Vec<Tz>,
}

impl Default for ClockConfig {
    fn default() -> (r: ClockConfig)
        ensures
            r.formats@.len() == 1,
            r.formats@[0]@ == "%H:%M"@,
            r.timezones@.len() == 0,
    {
        let mut formats: Vec<String> = Vec::new();
        formats.push("%H:%M".to_owned());
        ClockConfig { formats, timezones: Vec::new() }
    }
}

/// Parse an IANA time-zone name; `None` for a name that `chrono_tz` does not know.
pub fn parse_tz(name: &str) -> (r: Option<Tz>)
    ensures
        r == tz_named(name@),
{
    tz_from_name(name)
}

/// Milliseconds from `secs_past` seconds and `nanos_past` nanoseconds into a minute to the
/// next full minute, at least 1.
pub open spec fn ms_to_next_minute(secs_past: u32, nanos_past: u32) -> int {
    let ms = (60 - secs_past) * 1000 - (nanos_past / 1_000_000) as int;
    if ms < 1 {
        1
    } else {
        ms
    }
}

/// Milliseconds until the next full minute boundary, minimum 1, from the seconds and
/// nanoseconds already past in the current minute.
pub fn ms_until_next_tick(secs_past: u32, nanos_past: u32) -> (r: u64)
    requires
        secs_past <= 60,
    ensures
        r == ms_to_next_minute(secs_past, nanos_past),
        1 <= r <= 60_000,
{
    let whole = (60 - secs_past as u64) * 1000;
    let sub = nanos_past as u64 / 1_000_000;
    let ms = if whole >= sub {
        whole - sub
    } else {
        0
    };
    if ms < 1 {
        1
    } else {
        ms
    }
}

/// The index of the time zone after a scroll over the clock: up moves back (wrapping to the
/// last zone), down moves forward (wrapping to the first).
pub open spec fn next_tz(cur: usize, n: usize, up: bool) -> int {
    if up {
        if cur == 0 {
            n - 1
        } else {
            cur - 1
        }
    } else {
        (cur + 1) % (n as int)
    }
}

/// Cycle the time-zone index by one step.
pub fn next_tz_index(cur: usize, n: usize, up: bool) -> (r: usize)
    requires
        n > 0,
        cur < n,
    ensures
        r == next_tz(cur, n, up),
        r < n,
{
    if up {
        if cur == 0 {
            n - 1
        } else {
            cur - 1
        }
    } else {
        (cur + 1) % n
    }
}

/// Scrolling up and then down over the clock returns to the same time zone.
pub proof fn lemma_tz_scroll_roundtrip(cur: usize, n: usize)
    requires
        n > 0,
        cur < n,
    ensures
        next_tz(next_tz(cur, n, true) as usize, n, false) == cur,
        next_tz(next_tz(cur, n, false) as usize, n, true) == cur,
{
    assert((cur + 1) % (n as int) == if cur + 1 == n {
        0
    } else {
        cur + 1
    }) by (nonlinear_arith)
        requires
            cur < n,
    ;
    assert((n - 1 + 1) % (n as int) == 0) by (nonlinear_arith)
        requires
            n > 0,
    ;
    if cur > 0 {
        assert((cur - 1 + 1) % (n as int) == cur) by (nonlinear_arith)
            requires
                0 < cur < n,
        ;
    }
}

} // verus!
