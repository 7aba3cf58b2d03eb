//! Exec scripts: what a line of a script's output carries, and how long to wait before a
//! script that ended is started again.
use vstd::prelude::*;

use crate::text::{string_of, trim, trim_str};
use vstd::arithmetic::power2::{lemma2_to64, lemma_pow2_unfold, pow2};

verus! {

/// The wait, in seconds, before the first restart of a script that ended.
pub const BACKOFF_INITIAL_SECS: u64 = 1;

/// The longest wait, in seconds, between two restarts.
pub const BACKOFF_MAX_SECS: u64 = 30;

/// The wait after `secs`: twice as long, at most [`BACKOFF_MAX_SECS`].
pub open spec fn next_backoff_spec(secs: u64) -> int {
    if 2 * secs < BACKOFF_MAX_SECS {
        2 * secs
    } else {
        BACKOFF_MAX_SECS as int
    }
}

/// The wait before the next restart of a script, after one of `secs` seconds.
pub fn next_backoff(secs: u64) -> (r: u64)
    requires
        secs <= u64::MAX / 2,
    ensures
        r == next_backoff_spec(secs),
{
    let d = secs * 2;
    if d < BACKOFF_MAX_SECS {
        d
    } else {
        BACKOFF_MAX_SECS
    }
}

/// The waits from the first restart on stay between the initial and the longest wait and
/// never shrink.
pub proof fn lemma_backoff_bounded(secs: u64)
    requires
        BACKOFF_INITIAL_SECS <= secs <= BACKOFF_MAX_SECS,
    ensures
        secs <= next_backoff_spec(secs) <= BACKOFF_MAX_SECS,
{
}

/// The wait before the restart that follows the `k`-th exit of a script (counting from 1):
/// the initial wait after the first exit, then each wait the next one of the wait before it.
pub open spec fn restart_delay(k: nat) -> int
    decreases k,
{
    if k <= 1 {
        BACKOFF_INITIAL_SECS as int
    } else {
        next_backoff_spec(restart_delay((k - 1) as nat) as u64)
    }
}

/// After the `k`-th exit of a script, it is started again after `min(2^(k-1), 30)` seconds:
/// the wait doubles from one second until it reaches the longest wait, and stays there.
pub proof fn lemma_restart_delay_doubles_to_max(k: nat)
    requires
        k >= 1,
    ensures
        restart_delay(k) == if pow2((k - 1) as nat) < BACKOFF_MAX_SECS {
            pow2((k - 1) as nat) as int
        } else {
            BACKOFF_MAX_SECS as int
        },
    decreases k,
{
    if k == 1 {
        lemma2_to64();
    } else {
        lemma_restart_delay_doubles_to_max((k - 1) as nat);
        lemma_pow2_unfold((k - 1) as nat);
    }
}

/// The text that a line of script output carries: the line trimmed, or nothing for a blank
/// line.
pub open spec fn payload_spec(line: Seq<char>) -> Option<Seq<char>> {
    if trim(line).len() == 0 {
        None
    } else {
        Some(trim(line))
    }
}

/// The trimmed line to parse, or `None` for a blank line, which is skipped.
pub fn script_payload(line: &str) -> (r: Option<String>)
    ensures
        match r {
            Some(s) => payload_spec(line@) == Some(s@),
            None => payload_spec(line@) is None,
        },
{
    let t = trim_str(line);
    if t.len() == 0 {
        None
    } else {
        Some(string_of(&t))
    }
}

} // verus!
