//! The counting barrier on which a pipeline waits for its units of work.
//!
//! The total is fixed when the barrier is made. Each unit reports once:
//! that it is done, or that it failed. The barrier does not tell the units
//! apart, it counts them.

use crate::error::CustomError;
use vstd::prelude::*;

verus! {

/// What a [`Barrier`] holds, as mathematical values.
pub struct BarrierView {
    /// The number of completions to wait for.
    pub expected: nat,
    /// The number of completions counted so far, at most `expected`.
    pub observed: nat,
    /// The first failure that a unit reported, if any did.
    pub failure: Option<CustomError>,
}

/// What the one who waits on a barrier has to do next.
#[derive(Debug, PartialEq, Eq)]
pub enum Release {
    /// Fewer completions than expected were counted, and no unit failed.
    Waiting,
    /// Every expected completion was counted, and no unit failed.
    Satisfied,
    /// A unit failed; this is the first failure reported.
    Failed(CustomError),
}

/// What a barrier in this state tells the one who waits on it: a failure
/// comes before anything else, then the count decides.
pub open spec fn release_of(barrier: BarrierView) -> Release {
    match barrier.failure {
        Some(error) => Release::Failed(error),
        None => if barrier.observed == barrier.expected {
            Release::Satisfied
        } else {
            Release::Waiting
        },
    }
}

/// The state after one more completion: counted, unless every expected
/// completion was counted already.
pub open spec fn signalled(barrier: BarrierView) -> BarrierView {
    if barrier.observed < barrier.expected {
        BarrierView { observed: barrier.observed + 1, ..barrier }
    } else {
        barrier
    }
}

/// The state after `count` completions.
pub open spec fn signalled_times(barrier: BarrierView, count: nat) -> BarrierView
    decreases count,
{
    if count == 0 {
        barrier
    } else {
        signalled(signalled_times(barrier, (count - 1) as nat))
    }
}

/// The state after a unit reported a failure: the first one is kept.
pub open spec fn failed(barrier: BarrierView, error: CustomError) -> BarrierView {
    match barrier.failure {
        Some(_) => barrier,
        None => BarrierView { failure: Some(error), ..barrier },
    }
}

/// A barrier that waits for a known number of completions.
#[derive(Debug)]
pub struct Barrier {
    expected: usize,
    observed: usize,
    failure: Option<CustomError>,
}

impl View for Barrier {
    type V = BarrierView;

    closed spec fn view(&self) -> BarrierView {
        BarrierView {
            expected: self.expected as nat,
            observed: self.observed as nat,
            failure: self.failure,
        }
    }
}

impl Barrier {
    #[verifier::type_invariant]
    spec fn counted_within(self) -> bool {
        self.observed <= self.expected
    }

    /// A barrier that waits for `expected` completions, none counted yet.
    pub fn new(expected: usize) -> (barrier: Self)
        ensures
            barrier@ == (BarrierView { expected: expected as nat, observed: 0, failure: None }),
    {
        Barrier { expected, observed: 0, failure: None }
    }

    /// Counts one completion.
    pub fn signal(&mut self)
        ensures
            final(self)@ == signalled(old(self)@),
    {
        proof {
            use_type_invariant(&*self);
        }
        if self.observed < self.expected {
            self.observed = self.observed + 1;
        }
    }

    /// Takes the failure of one unit; the first failure reported is kept.
    pub fn fail(&mut self, error: CustomError)
        ensures
            final(self)@ == failed(old(self)@, error),
    {
        proof {
            use_type_invariant(&*self);
        }
        if self.failure.is_none() {
            self.failure = Some(error);
        }
    }

    /// The number of completions to wait for.
    pub fn expected(&self) -> (count: usize)
        ensures
            count == self@.expected,
    {
        self.expected
    }

    /// The number of completions still to come.
    pub fn remaining(&self) -> (count: usize)
        ensures
            self@.observed <= self@.expected,
            count == self@.expected - self@.observed,
    {
        proof {
            use_type_invariant(self);
        }
        self.expected - self.observed
    }

    /// Whether every expected completion was counted and no unit failed.
    pub fn is_satisfied(&self) -> (done: bool)
        ensures
            done == (release_of(self@) is Satisfied),
    {
        self.failure.is_none() && self.observed == self.expected
    }

    /// What the one who waits has to do next.
    pub fn poll(&self) -> (release: Release)
        ensures
            release == release_of(self@),
    {
        match &self.failure {
            Some(error) => Release::Failed(error.duplicate()),
            None => if self.observed == self.expected {
                Release::Satisfied
            } else {
                Release::Waiting
            },
        }
    }
}

/// A barrier that no unit failed on is satisfied after as many completions
/// as it expects and not before; one that expects none is satisfied at once.
pub proof fn lemma_barrier_counts(expected: nat, count: nat)
    ensures
        signalled_times(
            BarrierView { expected, observed: 0, failure: None },
            count,
        ) == (BarrierView {
            expected,
            observed: if count <= expected {
                count
            } else {
                expected
            },
            failure: None,
        }),
        release_of(signalled_times(BarrierView { expected, observed: 0, failure: None }, count))
            is Satisfied <==> count >= expected,
    decreases count,
{
    if count > 0 {
        lemma_barrier_counts(expected, (count - 1) as nat);
    }
}

} // verus!
