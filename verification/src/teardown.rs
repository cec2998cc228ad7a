use vstd::prelude::*;

verus! {

/// Per-context teardown counters: what still keeps the context's V8-side
/// state alive.
#[derive(Clone, Copy, Debug, PartialEq, Eq, Structural)]
pub struct TeardownCounts {
    pub strong_roots: usize,
    pub weak_holds: usize,
    pub weak_callbacks: usize,
    pub pending_weak: usize,
    pub strong_persistents: usize,
    pub weak_persistents: usize,
}

impl TeardownCounts {
    /// Nothing is left.
    pub open spec fn is_zero_spec(self) -> bool {
        &&& self.strong_roots == 0
        &&& self.weak_holds == 0
        &&& self.weak_callbacks == 0
        &&& self.pending_weak == 0
        &&& self.strong_persistents == 0
        &&& self.weak_persistents == 0
    }

    /// Only weak persistents are left.
    pub open spec fn only_weak_persistents_spec(self) -> bool {
        &&& self.strong_roots == 0
        &&& self.weak_holds == 0
        &&& self.weak_callbacks == 0
        &&& self.pending_weak == 0
        &&& self.strong_persistents == 0
        &&& self.weak_persistents != 0
    }

    /// All counters are zero.
    pub fn is_zero(self) -> (b: bool)
        ensures
            b == self.is_zero_spec(),
            b <==> (self.strong_roots == 0 && self.weak_holds == 0 && self.weak_callbacks == 0 && self.pending_weak
                == 0 && self.strong_persistents == 0 && self.weak_persistents == 0),
    {
        self.strong_roots == 0 && self.weak_holds == 0 && self.weak_callbacks == 0
            && self.pending_weak == 0 && self.strong_persistents == 0 && self.weak_persistents == 0
    }

    /// Everything but weak persistents is zero, and some weak persistent is left.
    pub fn only_weak_persistents(self) -> (b: bool)
        ensures
            b == self.only_weak_persistents_spec(),
            b <==> (self.strong_roots == 0 && self.weak_holds == 0 && self.weak_callbacks == 0 && self.pending_weak
                == 0 && self.strong_persistents == 0 && self.weak_persistents != 0),
    {
        self.strong_roots == 0 && self.weak_holds == 0 && self.weak_callbacks == 0
            && self.pending_weak == 0 && self.strong_persistents == 0 && self.weak_persistents != 0
    }
}

/// Nothing is left of a context exactly when every one of the six counters
/// is zero: a strong root, a weak hold, a registered or pending weak
/// callback, or a strong or weak persistent still left keeps the teardown
/// from being done.
pub proof fn lemma_nothing_left_means_every_counter_zero(c: TeardownCounts)
    ensures
        c.is_zero_spec() <==> (c.strong_roots == 0 && c.weak_holds == 0 && c.weak_callbacks == 0 && c.pending_weak
            == 0 && c.strong_persistents == 0 && c.weak_persistents == 0),
        c.only_weak_persistents_spec() <==> (c.strong_roots == 0 && c.weak_holds == 0 && c.weak_callbacks == 0
            && c.pending_weak == 0 && c.strong_persistents == 0 && c.weak_persistents != 0),
{
}

/// The most cleanup passes a context teardown makes.
pub const MAX_TEARDOWN_PASSES: usize = 32;

/// Why a context teardown gave up.
#[derive(Clone, Copy, Debug, PartialEq, Eq, Structural)]
pub enum TeardownError {
    /// Two passes in a row left the same counts; `weak_after_strong` is what
    /// disposing the strong persistents reported as weak ones left.
    Stalled { counts: TeardownCounts, weak_after_strong: usize },
    /// Only weak persistents were left and disposing them changed nothing.
    StalledOnWeak { counts: TeardownCounts },
    /// The last pass still left something.
    Incomplete { counts: TeardownCounts },
    /// Weak persistents remained after the final dispose.
    WeakPersistentsRemain { remaining: usize },
    /// Strong persistents remained after the final dispose.
    StrongPersistentsRemain { remaining: usize },
    /// Something remained once the context tables were gone.
    ResidualBeforeGc { counts: TeardownCounts },
    /// Something remained once the bridge state was gone.
    Residual { counts: TeardownCounts },
}

/// What the teardown does after a measurement.
#[derive(Clone, Copy, Debug, PartialEq, Eq, Structural)]
pub enum PassVerdict {
    /// Leave the pass loop and go on with the final checks.
    Finished,
    /// Only weak persistents are left: dispose them, collect, and measure again.
    DisposeWeak,
    /// Run another cleanup pass.
    NextPass,
    /// Give up with this error.
    Failed(TeardownError),
}

/// The pass loop of a context teardown: each pass releases what the
/// bridge holds, collects garbage and measures what is left; the loop ends
/// when nothing is left, and gives up when a pass changed nothing or the
/// passes ran out.
#[derive(Clone, Copy, Debug, PartialEq, Eq, Structural)]
pub struct TeardownLoop {
    /// The index of the pass under way.
    pub pass: usize,
    /// The counts measured before the first pass, then after the last one.
    pub last: TeardownCounts,
}

impl TeardownLoop {
    /// A loop about to run its first pass; `initial` was measured before it.
    pub fn start(initial: TeardownCounts) -> (l: TeardownLoop)
        ensures
            l.pass == 0,
            l.last == initial,
    {
        TeardownLoop { pass: 0, last: initial }
    }

    /// The verdict after a cleanup pass measured `counts`, when disposing
    /// the strong persistents reported `weak_after_strong` weak ones left.
    pub fn after_pass(&mut self, counts: TeardownCounts, weak_after_strong: usize) -> (v: PassVerdict)
        requires
            old(self).pass < MAX_TEARDOWN_PASSES,
        ensures
            counts.is_zero_spec() ==> v == PassVerdict::Finished && *final(self) == *old(self),
            !counts.is_zero_spec() && counts.only_weak_persistents_spec() ==> v == PassVerdict::DisposeWeak
                && *final(self) == *old(self),
            !counts.is_zero_spec() && !counts.only_weak_persistents_spec() ==> {
                if old(self).pass > 0 && counts == old(self).last {
                    &&& v == PassVerdict::Failed(TeardownError::Stalled { counts, weak_after_strong })
                    &&& *final(self) == *old(self)
                } else if old(self).pass + 1 == MAX_TEARDOWN_PASSES {
                    &&& v == PassVerdict::Failed(TeardownError::Incomplete { counts })
                    &&& *final(self) == *old(self)
                } else {
                    &&& v == PassVerdict::NextPass
                    &&& final(self).pass == old(self).pass + 1
                    &&& final(self).last == counts
                }
            },
            v == PassVerdict::NextPass ==> final(self).pass < MAX_TEARDOWN_PASSES,
            v == PassVerdict::Finished <==> (counts.strong_roots == 0 && counts.weak_holds == 0 && counts.weak_callbacks
                == 0 && counts.pending_weak == 0 && counts.strong_persistents == 0 && counts.weak_persistents == 0),
    {
        proof {
            lemma_nothing_left_means_every_counter_zero(counts);
        }
        if counts.is_zero() {
            return PassVerdict::Finished;
        }
        if counts.only_weak_persistents() {
            return PassVerdict::DisposeWeak;
        }
        if self.pass > 0 && counts == self.last {
            return PassVerdict::Failed(TeardownError::Stalled { counts, weak_after_strong });
        }
        if self.pass + 1 == MAX_TEARDOWN_PASSES {
            return PassVerdict::Failed(TeardownError::Incomplete { counts });
        }
        self.last = counts;
        self.pass = self.pass + 1;
        PassVerdict::NextPass
    }

    /// The verdict after the weak persistents were disposed and a
    /// collection ran, measuring `after`. When the passes run out this way
    /// the loop ends and the final checks decide.
    pub fn after_weak_dispose(&mut self, after: TeardownCounts) -> (v: PassVerdict)
        requires
            old(self).pass < MAX_TEARDOWN_PASSES,
        ensures
            after.is_zero_spec() ==> v == PassVerdict::Finished && *final(self) == *old(self),
            !after.is_zero_spec() ==> {
                if old(self).pass > 0 && after == old(self).last {
                    &&& v == PassVerdict::Failed(TeardownError::StalledOnWeak { counts: after })
                    &&& *final(self) == *old(self)
                } else {
                    &&& final(self).pass == old(self).pass + 1
                    &&& final(self).last == after
                    &&& v == (if final(self).pass == MAX_TEARDOWN_PASSES {
                        PassVerdict::Finished
                    } else {
                        PassVerdict::NextPass
                    })
                }
            },
            v == PassVerdict::NextPass ==> final(self).pass < MAX_TEARDOWN_PASSES,
    {
        if after.is_zero() {
            return PassVerdict::Finished;
        }
        if self.pass > 0 && after == self.last {
            return PassVerdict::Failed(TeardownError::StalledOnWeak { counts: after });
        }
        self.last = after;
        self.pass = self.pass + 1;
        if self.pass == MAX_TEARDOWN_PASSES {
            PassVerdict::Finished
        } else {
            PassVerdict::NextPass
        }
    }
}

/// After the final dispose of weak persistents: an error when some remain.
pub fn check_weak_persistents_disposed(after: TeardownCounts) -> (r: Result<(), TeardownError>)
    ensures
        after.weak_persistents == 0 ==> r is Ok,
        after.weak_persistents != 0 ==> r == Err::<(), TeardownError>(
            TeardownError::WeakPersistentsRemain { remaining: after.weak_persistents },
        ),
{
    if after.weak_persistents != 0 {
        Err(TeardownError::WeakPersistentsRemain { remaining: after.weak_persistents })
    } else {
        Ok(())
    }
}

/// After the final dispose of strong persistents: an error when some remain.
pub fn check_strong_persistents_disposed(after: TeardownCounts) -> (r: Result<(), TeardownError>)
    ensures
        after.strong_persistents == 0 ==> r is Ok,
        after.strong_persistents != 0 ==> r == Err::<(), TeardownError>(
            TeardownError::StrongPersistentsRemain { remaining: after.strong_persistents },
        ),
{
    if after.strong_persistents != 0 {
        Err(TeardownError::StrongPersistentsRemain { remaining: after.strong_persistents })
    } else {
        Ok(())
    }
}

/// The residual check: an error naming what is left, unless nothing is.
/// `state_removed` tells whether the bridge state was already removed.
pub fn check_residual(remaining: TeardownCounts, state_removed: bool) -> (r: Result<(), TeardownError>)
    ensures
        remaining.is_zero_spec() ==> r is Ok,
        !remaining.is_zero_spec() ==> r == Err::<(), TeardownError>(
            if state_removed {
                TeardownError::Residual { counts: remaining }
            } else {
                TeardownError::ResidualBeforeGc { counts: remaining }
            },
        ),
        r is Ok <==> (remaining.strong_roots == 0 && remaining.weak_holds == 0 && remaining.weak_callbacks == 0
            && remaining.pending_weak == 0 && remaining.strong_persistents == 0 && remaining.weak_persistents == 0),
{
    proof {
        lemma_nothing_left_means_every_counter_zero(remaining);
    }
    if remaining.is_zero() {
        Ok(())
    } else if state_removed {
        Err(TeardownError::Residual { counts: remaining })
    } else {
        Err(TeardownError::ResidualBeforeGc { counts: remaining })
    }
}

} // verus!
