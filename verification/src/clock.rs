//! Injected time.

use vstd::prelude::*;

use std::time::{Duration, SystemTime, SystemTimeError, UNIX_EPOCH};

verus! {

/// Injected time source. `Send + Sync` so an async host can share it.
pub trait Clock: Send + Sync {
    /// Whether the clock may now read `t`. A clock that says nothing may read
    /// anything.
    open spec fn reads(&self, t: i64) -> bool {
        true
    }

    /// Current time in whole Unix seconds.
    fn now_unix(&self) -> (t: i64)
        ensures
            self.reads(t),
    ;
}

/// A test/manual clock whose time only changes when explicitly told.
#[derive(Debug)]
pub struct ManualClock {
    now: i64,
}

impl View for ManualClock {
    type V = i64;

    closed spec fn view(&self) -> i64 {
        self.now
    }
}

/// `n` brought into the range of an `i64`, modulo its size.
pub open spec fn wrapped(n: int) -> int {
    if n > i64::MAX {
        n - 0x1_0000_0000_0000_0000
    } else if n < i64::MIN {
        n + 0x1_0000_0000_0000_0000
    } else {
        n
    }
}

impl ManualClock {
    pub fn new(start: i64) -> (r: ManualClock)
        ensures
            r@ == start,
    {
        ManualClock { now: start }
    }

    pub fn set(&mut self, t: i64)
        ensures
            final(self)@ == t,
    {
        self.now = t;
    }

    /// Moves the time on, wrapping around at the end of its range.
    pub fn advance(&mut self, secs: i64)
        ensures
            final(self)@ == wrapped(old(self)@ + secs),
    {
        self.now = self.now.wrapping_add(secs);
    }
}

impl Clock for ManualClock {
    /// It reads the time it was told.
    open spec fn reads(&self, t: i64) -> bool {
        t == self@
    }

    fn now_unix(&self) -> (t: i64) {
        self.now
    }
}

/// `std::time::SystemTime`, carried from the call that reads it to the one that
/// measures it.
#[verifier::external_type_specification]
#[verifier::external_body]
pub struct ExSystemTime(SystemTime);

/// `std::time::SystemTimeError`: the moment lies before the epoch.
#[verifier::external_type_specification]
#[verifier::external_body]
pub struct ExSystemTimeError(SystemTimeError);

/// `std::time::SystemTime::now`: the machine's wall clock, of which nothing is
/// claimed.
pub assume_specification[ SystemTime::now ]() -> SystemTime;

/// `std::time::Duration::as_secs`. It depends on how long the span is, which
/// nothing here knows, so nothing is claimed of it.
pub assume_specification[ Duration::as_secs ](d: &Duration) -> u64;

/// `std::time::SystemTime::duration_since`, from the Unix epoch. It depends on
/// the moment, which nothing here knows, so nothing is claimed of it.
#[verifier::external_body]
fn since_epoch(moment: SystemTime) -> Result<Duration, SystemTimeError> {
    moment.duration_since(UNIX_EPOCH)
}

/// The Unix time for the whole seconds since the epoch; zero where the clock
/// stands before it.
pub fn unix_seconds(elapsed: Option<u64>) -> (t: i64)
    ensures
        t == match elapsed {
            Some(secs) => wrapped(secs as int),
            None => 0,
        },
{
    match elapsed {
        Some(secs) => {
            assert(secs > 0x7fff_ffff_ffff_ffff ==> secs as i64 == secs
                - 0x1_0000_0000_0000_0000) by (bit_vector);
            secs as i64
        },
        None => 0,
    }
}

/// The production clock: real wall-clock time. This is the only place that reads
/// the machine's clock; everything else takes time via `Clock`.
#[derive(Debug)]
pub struct SystemClock;

impl Clock for SystemClock {
    /// The machine decides what it reads.
    open spec fn reads(&self, t: i64) -> bool {
        true
    }

    fn now_unix(&self) -> (t: i64) {
        let elapsed = match since_epoch(SystemTime::now()) {
            Ok(span) => Some(span.as_secs()),
            Err(_) => None,
        };
        unix_seconds(elapsed)
    }
}

/// Wrapping around keeps a number modulo the size of its range, and brings it into it.
pub proof fn lemma_wrapping_keeps_the_remainder(n: int)
    requires
        -0x1_0000_0000_0000_0000 <= n <= 0x1_0000_0000_0000_0000,
    ensures
        -0x8000_0000_0000_0000 <= wrapped(n) < 0x8000_0000_0000_0000,
        (wrapped(n) - n) % 0x1_0000_0000_0000_0000 == 0,
{
}

/// The Unix time is the seconds since the epoch, but for their remainder where they are
/// too many, and zero before it.
pub proof fn lemma_unix_time(elapsed: Option<u64>, t: i64)
    requires
        call_ensures(unix_seconds, (elapsed,), t),
    ensures
        elapsed is Some && elapsed->0 < 0x8000_0000_0000_0000 ==> t == elapsed->0,
        elapsed is Some ==> (t - elapsed->0) % 0x1_0000_0000_0000_0000 == 0,
        elapsed is None ==> t == 0,
{
}

} // verus!
