//! Scheduling and matching helpers.
//!
//! The periodic task is a plain value; the embedding application shares
//! it across tasks behind its own synchronization and supplies the
//! clock readings. A cancellation flag that several tasks alias through
//! shared memory has no meaning as a value, so it stays with the
//! embedding application.

use vstd::prelude::*;
use vstd::string::*;
use crate::models::spec_elapsed;
use crate::text;

verus! {

/// Runs a piece of work at most once per interval.
#[derive(Debug)]
pub struct PeriodicTask {
    /// When the task last ran, milliseconds
    pub last_run_ms: u64,
    /// The minimal gap between runs, milliseconds
    pub interval_ms: u64,
}

impl PeriodicTask {
    /// A task that last ran now.
    pub fn new(interval_ms: u64, now_ms: u64) -> (r: Self)
        ensures
            r.last_run_ms == now_ms,
            r.interval_ms == interval_ms,
    {
        PeriodicTask { last_run_ms: now_ms, interval_ms }
    }

    /// Whether the interval has elapsed; if so, the task counts as run
    /// now.
    pub fn should_run(&mut self, now_ms: u64) -> (r: bool)
        ensures
            r == (spec_elapsed(old(self).last_run_ms, now_ms) >= old(self).interval_ms),
            final(self).interval_ms == old(self).interval_ms,
            r ==> final(self).last_run_ms == now_ms,
            !r ==> final(self).last_run_ms == old(self).last_run_ms,
    {
        let elapsed = if now_ms >= self.last_run_ms {
            now_ms - self.last_run_ms
        } else {
            0
        };
        if elapsed >= self.interval_ms {
            self.last_run_ms = now_ms;
            true
        } else {
            false
        }
    }

    /// Calls `f` once when the interval has elapsed, and not at all
    /// otherwise.
    pub fn run_if_needed<F: FnOnce()>(&mut self, now_ms: u64, f: F) -> (ran: bool)
        requires
            f.requires(()),
        ensures
            ran == (spec_elapsed(old(self).last_run_ms, now_ms) >= old(self).interval_ms),
            final(self).interval_ms == old(self).interval_ms,
            ran ==> final(self).last_run_ms == now_ms,
            ran ==> f.ensures((), ()),
            !ran ==> final(self).last_run_ms == old(self).last_run_ms,
    {
        if self.should_run(now_ms) {
            f();
            true
        } else {
            false
        }
    }
}

/// Whether `needle` occurs in `haystack`, compared by UTF-8 bytes.
pub fn fast_string_match(haystack: &str, needle: &str) -> (r: bool)
    ensures
        r == text::spec_bytes_contains(haystack.spec_bytes(), needle.spec_bytes()),
{
    text::str_contains(haystack, needle)
}

/// Whether `haystack` starts with `prefix`.
pub fn fast_starts_with(haystack: &str, prefix: &str) -> (r: bool)
    ensures
        r == text::spec_starts_with(haystack@, prefix@),
{
    text::str_starts_with(haystack, prefix)
}

} // verus!
