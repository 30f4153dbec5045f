//! How the rate policy answers a retry: whether a policy exists, and
//! whether a frame of a given rate and try count gives up or is re-armed,
//! perhaps at another rate.

use vstd::prelude::*;

verus! {

/// The rate policy's answer for a failed try.
#[derive(Clone, Copy, Debug, PartialEq, Eq, Structural)]
pub enum RateRetryStep {
    GiveUp,
    Rearm { rate: u8 },
}

/// A call made to the rate policy table, with what it answered.
#[derive(Clone, Copy, Debug, PartialEq, Eq, Structural)]
pub enum RateCall {
    PolicyExists { policy: u8, exists: bool },
    RetryStep { policy: u8, rate: u8, try_count: u16, long_frame: bool, step: RateRetryStep },
}

/// The rate policy table. Each call is recorded in `calls`.
pub trait RatePolicy {
    /// Every call made so far, oldest first.
    /// A verified implementation defines it; the empty default only lets an
    /// implementation that Verus does not check leave it out.
    open spec fn calls(&self) -> Seq<RateCall> {
        Seq::empty()
    }

    fn policy_exists(&mut self, policy: u8) -> (exists: bool)
        ensures
            final(self).calls() == old(self).calls().push(RateCall::PolicyExists { policy, exists }),
    ;

    /// The step of `policy` for a frame at `rate` after `try_count` tries.
    fn retry_step(&mut self, policy: u8, rate: u8, try_count: u16, long_frame: bool) -> (step: RateRetryStep)
        ensures
            final(self).calls() == old(self).calls().push(
                RateCall::RetryStep { policy, rate, try_count, long_frame, step },
            ),
    ;
}

/// What the first call answered, when it asks whether a policy exists.
pub open spec fn exists_answer(r: Seq<RateCall>) -> bool {
    r.len() > 0 && r[0] is PolicyExists && r[0]->PolicyExists_exists
}

/// What the first call answered, when it asks for a retry step.
pub open spec fn step_answer(r: Seq<RateCall>) -> RateRetryStep {
    if r.len() > 0 && r[0] is RetryStep {
        r[0]->RetryStep_step
    } else {
        RateRetryStep::GiveUp
    }
}

} // verus!
