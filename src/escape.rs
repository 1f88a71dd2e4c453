//! The escape-time counting protocol.
//!
//! An orbit `z_0, z_1 = z_0^2 + c, z_2, ...` is watched one point at a time;
//! for each point the caller reports whether its squared magnitude exceeds
//! the squared escape radius. The escape time is the index of the first
//! point that does, or `max_iter` when none of `z_0 .. z_{max_iter - 1}` does.

use vstd::prelude::*;

verus! {

/// Escape time of the escape flags `flags` from index `i` on, capped at
/// `max_iter`.
pub open spec fn escape_from(flags: Seq<bool>, i: nat, max_iter: nat) -> nat
    decreases max_iter - i,
{
    if i >= max_iter || i >= flags.len() {
        max_iter
    } else if flags[i as int] {
        i
    } else {
        escape_from(flags, i + 1, max_iter)
    }
}

/// Escape time of an orbit whose `j`-th point escapes exactly when
/// `flags[j]` holds.
pub open spec fn escape_time(flags: Seq<bool>, max_iter: nat) -> nat {
    escape_from(flags, 0, max_iter)
}

proof fn lemma_escape_from_first(flags: Seq<bool>, i: nat, max_iter: nat)
    requires
        flags.len() >= max_iter,
        i <= max_iter,
    ensures
        i <= escape_from(flags, i, max_iter) <= max_iter,
        escape_from(flags, i, max_iter) < max_iter ==> flags[escape_from(flags, i, max_iter) as int],
        forall|j: int| i <= j < escape_from(flags, i, max_iter) ==> !flags[j],
    decreases max_iter - i,
{
    if i < max_iter && !flags[i as int] {
        lemma_escape_from_first(flags, i + 1, max_iter);
    }
}

/// The escape time is the index of the first escaping point below
/// `max_iter`, and `max_iter` when no point below it escapes.
pub proof fn lemma_escape_time_first(flags: Seq<bool>, max_iter: nat)
    requires
        flags.len() >= max_iter,
    ensures
        escape_time(flags, max_iter) <= max_iter,
        escape_time(flags, max_iter) < max_iter ==> flags[escape_time(flags, max_iter) as int],
        forall|j: int| 0 <= j < escape_time(flags, max_iter) ==> !flags[j],
{
    lemma_escape_from_first(flags, 0, max_iter);
}

/// An orbit none of whose first `max_iter` points escapes (the orbit of 0
/// under `c = 0` stays at 0) is counted as inside: its escape time is
/// `max_iter`.
pub proof fn lemma_never_escapes(flags: Seq<bool>, max_iter: nat)
    requires
        flags.len() >= max_iter,
        forall|j: int| 0 <= j < max_iter ==> !flags[j],
    ensures
        escape_time(flags, max_iter) == max_iter,
{
    lemma_escape_time_first(flags, max_iter);
}

/// A starting point that already lies beyond the escape radius has escape
/// time 0.
pub proof fn lemma_starts_outside(flags: Seq<bool>, max_iter: nat)
    requires
        max_iter > 0,
        flags.len() > 0,
        flags[0],
    ensures
        escape_time(flags, max_iter) == 0,
{
}

/// The state of one escape-time count: how many orbit points have been
/// reported so far, all of them below the escape radius unless the count
/// is finished.
pub struct EscapeCounter {
    iter: u32,
    max_iter: u32,
    finished: bool,
    seen: Ghost<Seq<bool>>,
}

impl EscapeCounter {
    /// The escape flags reported so far.
    pub closed spec fn history(&self) -> Seq<bool> {
        self.seen@
    }

    /// The iteration cap.
    pub closed spec fn cap(&self) -> nat {
        self.max_iter as nat
    }

    /// Whether the escape time is already decided.
    pub closed spec fn is_finished(&self) -> bool {
        self.finished
    }

    pub closed spec fn wf(&self) -> bool {
        &&& 0 < self.max_iter
        &&& self.iter as nat == self.seen@.len()
        &&& self.iter <= self.max_iter
        &&& !self.finished ==> self.iter < self.max_iter && forall|j: int|
            0 <= j < self.iter ==> !self.seen@[j]
    }

    /// A fresh count with cap `max_iter`.
    pub fn new(max_iter: u32) -> (r: EscapeCounter)
        requires
            max_iter > 0,
        ensures
            r.wf(),
            r.history() == Seq::<bool>::empty(),
            r.cap() == max_iter,
            !r.is_finished(),
    {
        EscapeCounter { iter: 0, max_iter, finished: false, seen: Ghost(Seq::empty()) }
    }

    /// Reports whether the next orbit point escapes. Returns the escape time
    /// once it is decided: at the first escaping point, or after `max_iter`
    /// points none of which escaped.
    pub fn observe(&mut self, escaped: bool) -> (r: Option<u32>)
        requires
            old(self).wf(),
            !old(self).is_finished(),
        ensures
            final(self).wf(),
            final(self).cap() == old(self).cap(),
            final(self).history() == old(self).history().push(escaped),
            r == if escaped {
                Some(old(self).history().len() as u32)
            } else if old(self).history().len() + 1 == old(self).cap() {
                Some(old(self).cap() as u32)
            } else {
                None
            },
            final(self).is_finished() <==> r is Some,
            r matches Some(k) ==> k as nat == escape_time(final(self).history(), final(self).cap()),
    {
        let ghost h = self.seen@.push(escaped);
        proof {
            self.seen = Ghost(h);
        }
        let i = self.iter;
        self.iter = i + 1;
        proof {
            lemma_escape_all_clear(h, i as nat, self.max_iter as nat);
        }
        if escaped {
            self.finished = true;
            Some(i)
        } else if i + 1 == self.max_iter {
            self.finished = true;
            Some(self.max_iter)
        } else {
            None
        }
    }
}

proof fn lemma_escape_all_clear(flags: Seq<bool>, i: nat, max_iter: nat)
    requires
        i < max_iter,
        flags.len() == i + 1,
        forall|j: int| 0 <= j < i ==> !flags[j],
    ensures
        escape_time(flags, max_iter) == if flags[i as int] {
            i
        } else {
            max_iter
        },
{
    lemma_escape_prefix_clear(flags, 0, i, max_iter);
}

proof fn lemma_escape_prefix_clear(flags: Seq<bool>, s: nat, i: nat, max_iter: nat)
    requires
        s <= i < max_iter,
        flags.len() == i + 1,
        forall|j: int| 0 <= j < i ==> !flags[j],
    ensures
        escape_from(flags, s, max_iter) == if flags[i as int] {
            i
        } else {
            max_iter
        },
    decreases i - s,
{
    if s < i {
        lemma_escape_prefix_clear(flags, s + 1, i, max_iter);
    } else {
        if !flags[i as int] {
            assert(escape_from(flags, i + 1, max_iter) == max_iter);
        }
    }
}

} // verus!
