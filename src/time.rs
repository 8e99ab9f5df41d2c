use vstd::prelude::*;

verus! {

/// Milliseconds from `since` to `now` on a 64-bit millisecond clock that may
/// wrap: the forward distance when it is at most half the clock's range, else
/// `None` (then `since` lies after `now`).
pub open spec fn elapsed_spec(now: u64, since: u64) -> Option<u64> {
    let v = if now >= since { (now - since) as u64 } else { (now + 0x1_0000_0000_0000_0000 - since) as u64 };
    if v <= 0x7FFF_FFFF_FFFF_FFFFu64 {
        Some(v)
    } else {
        None
    }
}

/// Relies on fugit's TimerInstantU64::checked_duration_since: the wrapping
/// distance in ticks when the clock has not gone back by it, else `None`.
#[verifier::external_body]
pub(crate) fn elapsed_millis(now: u64, since: u64) -> (r: Option<u64>)
    ensures
        r == elapsed_spec(now, since),
{
    let n = fugit::TimerInstantU64::<1000>::from_ticks(now);
    let s = fugit::TimerInstantU64::<1000>::from_ticks(since);
    match n.checked_duration_since(s) {
        Some(d) => Some(d.ticks()),
        None => None,
    }
}

#[verifier::external_type_specification]
#[verifier::external_body]
pub struct ExStdInstant(std::time::Instant);

/// Relies on std::time::Instant::now: a reading of the monotonic clock.
#[verifier::external_body]
fn instant_now() -> std::time::Instant {
    std::time::Instant::now()
}

/// Relies on std::time::Instant::elapsed and Duration::as_millis: whole
/// milliseconds since `start`.
#[verifier::external_body]
fn millis_since(start: &std::time::Instant) -> u64 {
    start.elapsed().as_millis() as u64
}

/// Provides the time base of the stack: milliseconds that never go back
pub trait TimerDriver {
    /// Current timestamp in milliseconds
    fn now(&self) -> u64;
}

/// Clock of a std build: milliseconds since its creation
#[derive(Clone, Copy)]
pub struct StdTimerDriver(std::time::Instant);

impl StdTimerDriver {
    /// Starts the clock at 0
    pub fn new() -> Self {
        Self(instant_now())
    }
}

impl TimerDriver for StdTimerDriver {
    fn now(&self) -> u64 {
        millis_since(&self.0)
    }
}

} // verus!
