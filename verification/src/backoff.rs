//! Waiting for another thread.

use crossbeam_utils::Backoff as Spinner;
use vstd::prelude::*;

verus! {

/// How often `spin` lengthens the wait of a [`Backoff`].
pub const SPIN_LIMIT: u32 = 6;

/// How far `snooze` lengthens the wait of a [`Backoff`] before waiting is no longer worthwhile.
pub const YIELD_LIMIT: u32 = 10;

/// The type `crossbeam_utils::Backoff`: a counter of the waits made so far.
#[verifier::external_type_specification]
#[verifier::external_body]
pub struct ExSpinner(Spinner);

/// The number of waits that a `crossbeam_utils::Backoff` has counted.
pub uninterp spec fn spinner_step(spinner: Spinner) -> nat;

/// The count after one more wait, where the count is no longer raised past `limit`.
pub open spec fn raised(step: nat, limit: u32) -> nat {
    if step <= limit {
        step + 1
    } else {
        step
    }
}

/// Calls `crossbeam_utils::Backoff::new`: a new back-off has counted no waits.
#[verifier::external_body]
fn spinner_new() -> (spinner: Spinner)
    ensures
        spinner_step(spinner) == 0,
{
    Spinner::new()
}

/// Calls `crossbeam_utils::Backoff::spin`: it counts one wait, up to one past the spin limit.
/// How long it keeps the processor busy is not stated.
#[verifier::external_body]
fn spinner_spin(spinner: &mut Spinner)
    ensures
        spinner_step(*final(spinner)) == raised(spinner_step(*old(spinner)), SPIN_LIMIT),
{
    spinner.spin()
}

/// Calls `crossbeam_utils::Backoff::snooze`: it counts one wait, up to one past the yield limit.
/// How long it keeps the processor busy, and whether it yields, is not stated.
#[verifier::external_body]
fn spinner_snooze(spinner: &mut Spinner)
    ensures
        spinner_step(*final(spinner)) == raised(spinner_step(*old(spinner)), YIELD_LIMIT),
{
    spinner.snooze()
}

/// Calls `crossbeam_utils::Backoff::is_completed`: true once the count is past the yield limit.
#[verifier::external_body]
fn spinner_is_completed(spinner: &Spinner) -> (completed: bool)
    ensures
        completed == (spinner_step(*spinner) > YIELD_LIMIT),
{
    spinner.is_completed()
}

/// Waits of growing length, for a loop that can only go on once another thread has acted.
pub struct Backoff {
    backoff: Spinner,
}

impl Backoff {
    /// The number of waits counted so far.
    pub closed spec fn step(self) -> nat {
        spinner_step(self.backoff)
    }

    /// Waits without giving up the processor.
    pub fn spin(&mut self)
        ensures
            final(self).step() == raised(old(self).step(), SPIN_LIMIT),
    {
        spinner_spin(&mut self.backoff);
    }

    /// Whether waiting any longer in this way is no longer worthwhile.
    pub fn is_completed(&self) -> (completed: bool)
        ensures
            completed == (self.step() > YIELD_LIMIT),
    {
        spinner_is_completed(&self.backoff)
    }

    /// Waits, and gives up the processor once the waits have become long.
    pub fn snooze(&mut self)
        ensures
            final(self).step() == raised(old(self).step(), YIELD_LIMIT),
    {
        spinner_snooze(&mut self.backoff);
    }
}

impl Default for Backoff {
    /// A back-off that has not waited yet.
    fn default() -> (backoff: Self)
        ensures
            backoff.step() == 0,
    {
        Backoff { backoff: spinner_new() }
    }
}

} // verus!
