//! The round logic of the boundary-contraction solver.
//!
//! Each round every point of the curve is tested; the points found
//! unbounded are contracted toward the origin and the others are kept. The
//! curve has converged in the first round in which every point is bounded.
//! An optional cap on the number of rounds turns a run that does not
//! converge into a reported failure instead of an endless loop.

use vstd::prelude::*;

verus! {

/// What to do after a round.
#[derive(Clone, Copy, Debug, PartialEq, Eq, Structural)]
pub enum RoundOutcome {
    /// Every point was bounded in this round, the `rounds`-th.
    Converged { rounds: u64 },
    /// Contract the unbounded points and run another round.
    Refine,
    /// The round cap was reached after `rounds` rounds without convergence.
    GaveUp { rounds: u64 },
}

/// The outcome of round number `done` (counting from 1) under round cap
/// `cap`, when `all_bounded` says whether every point was bounded in it.
pub open spec fn round_outcome(done: nat, cap: Option<u64>, all_bounded: bool) -> RoundOutcome {
    if all_bounded {
        RoundOutcome::Converged { rounds: done as u64 }
    } else if cap matches Some(c) && done >= c {
        RoundOutcome::GaveUp { rounds: done as u64 }
    } else {
        RoundOutcome::Refine
    }
}

/// Whether every point of a round was bounded.
pub open spec fn every(flags: Seq<bool>) -> bool {
    forall|i: int| 0 <= i < flags.len() ==> flags[i]
}

/// Logical AND over the per-point verdicts of one round.
pub fn all_bounded(flags: &Vec<bool>) -> (r: bool)
    ensures
        r == every(flags@),
{
    let mut i: usize = 0;
    while i < flags.len()
        invariant
            i <= flags.len(),
            forall|j: int| 0 <= j < i ==> flags@[j],
        decreases flags.len() - i,
    {
        if !flags[i] {
            return false;
        }
        i = i + 1;
    }
    true
}

/// The solver's round counter and cap.
#[derive(Clone, Copy, Debug, PartialEq, Eq, Structural)]
pub struct BoundarySolver {
    pub rounds: u64,
    pub cap: Option<u64>,
}

impl BoundarySolver {
    /// A solver that has run no round yet. With `Some(c)` it gives up after
    /// round `c` (after the first round when `c` is 0); with `None` it never
    /// gives up.
    pub fn new(cap: Option<u64>) -> (r: BoundarySolver)
        ensures
            r.rounds == 0,
            r.cap == cap,
    {
        BoundarySolver { rounds: 0, cap }
    }

    /// Closes a round whose per-point verdicts are `flags` (`true` for a
    /// bounded point).
    pub fn finish_round(&mut self, flags: &Vec<bool>) -> (r: RoundOutcome)
        requires
            old(self).rounds < u64::MAX,
        ensures
            final(self).rounds == old(self).rounds + 1,
            final(self).cap == old(self).cap,
            r == round_outcome(final(self).rounds as nat, old(self).cap, every(flags@)),
    {
        self.rounds = self.rounds + 1;
        if all_bounded(flags) {
            RoundOutcome::Converged { rounds: self.rounds }
        } else {
            match self.cap {
                Some(c) => {
                    if self.rounds >= c {
                        RoundOutcome::GaveUp { rounds: self.rounds }
                    } else {
                        RoundOutcome::Refine
                    }
                },
                None => RoundOutcome::Refine,
            }
        }
    }
}

/// The final outcome of a run under cap `cap`, after `done` rounds that
/// asked to refine, when every later round gives the same verdict
/// `all_bounded`: the case of a curve that contraction leaves unchanged.
pub open spec fn run_unchanged(done: nat, cap: nat, all_bounded: bool) -> RoundOutcome
    decreases cap - done,
{
    let o = round_outcome(done + 1, Some(cap as u64), all_bounded);
    if o is Refine && done + 1 < cap {
        run_unchanged(done + 1, cap, all_bounded)
    } else {
        o
    }
}

proof fn lemma_run_unchanged_from(done: nat, cap: nat, all_bounded: bool)
    requires
        cap <= u64::MAX,
        done < cap,
    ensures
        run_unchanged(done, cap, all_bounded) == if all_bounded {
            RoundOutcome::Converged { rounds: (done + 1) as u64 }
        } else {
            RoundOutcome::GaveUp { rounds: cap as u64 }
        },
    decreases cap - done,
{
    if !all_bounded && done + 1 < cap {
        lemma_run_unchanged_from(done + 1, cap, all_bounded);
    }
}

/// A curve that a round leaves unchanged (contraction by a factor of 1)
/// gives the same verdict every round. The run then either converges in
/// its first round, when every point is bounded, or ends by reaching the
/// round cap, after exactly `cap` rounds, and reports that it gave up.
pub proof fn lemma_unchanged_curve(cap: u64, all_bounded: bool)
    requires
        cap > 0,
    ensures
        run_unchanged(0, cap as nat, all_bounded) == if all_bounded {
            RoundOutcome::Converged { rounds: 1 }
        } else {
            RoundOutcome::GaveUp { rounds: cap }
        },
{
    lemma_run_unchanged_from(0, cap as nat, all_bounded);
}

} // verus!
