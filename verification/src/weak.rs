use vstd::prelude::*;

use crate::tables::{PendingWeak, WeakPass};

verus! {

/// The second-pass callback a first pass asked for: only when it asked for
/// one and handed back a non-null callback.
pub fn second_pass_callback(needs_second: bool, second_pass: usize) -> (r: Option<usize>)
    ensures
        r == (if needs_second && second_pass != 0 { Some(second_pass) } else { None::<usize> }),
{
    if needs_second && second_pass != 0 {
        Some(second_pass)
    } else {
        None
    }
}

/// One call of a weak callback.
#[derive(Clone, Copy, Debug, PartialEq, Eq, Structural)]
pub enum WeakInvocation {
    FirstPass { callback: usize, parameter: usize },
    SecondPass { callback: usize, parameter: usize },
}

/// The invocation a pending item calls for.
pub open spec fn invocation_of(item: PendingWeak) -> WeakInvocation {
    match item.pass {
        WeakPass::First => WeakInvocation::FirstPass { callback: item.callback, parameter: item.parameter },
        WeakPass::Second => WeakInvocation::SecondPass { callback: item.callback, parameter: item.parameter },
    }
}

/// A pending item is invoked with its own callback and parameter, in the
/// pass it is due for.
pub proof fn lemma_invocation_calls_the_item(item: PendingWeak)
    ensures
        item.pass == WeakPass::First ==> invocation_of(item) == (WeakInvocation::FirstPass {
            callback: item.callback,
            parameter: item.parameter,
        }),
        item.pass == WeakPass::Second ==> invocation_of(item) == (WeakInvocation::SecondPass {
            callback: item.callback,
            parameter: item.parameter,
        }),
{
}

/// Dispatch of one batch of due weak callbacks, taken from the pending
/// queue at once: the items are invoked in queue order; the second passes
/// that first passes ask for are deferred and invoked, in the order they
/// were asked for, once every item of the batch has been invoked.
pub struct WeakDispatch {
    batch: Vec<PendingWeak>,
    next: usize,
    deferred: Vec<PendingWeak>,
    next_deferred: usize,
    awaiting_first: bool,
}

impl WeakDispatch {
    /// The items of the batch.
    pub closed spec fn batch_spec(&self) -> Seq<PendingWeak> {
        self.batch@
    }

    /// How many items of the batch have been handed out.
    pub closed spec fn next_spec(&self) -> int {
        self.next as int
    }

    /// The deferred second passes, in the order they were asked for.
    pub closed spec fn deferred_spec(&self) -> Seq<PendingWeak> {
        self.deferred@
    }

    /// How many deferred second passes have been handed out.
    pub closed spec fn next_deferred_spec(&self) -> int {
        self.next_deferred as int
    }

    /// A first pass was handed out and its result is not yet recorded.
    pub closed spec fn awaiting_first_spec(&self) -> bool {
        self.awaiting_first
    }

    /// Deferred second passes are handed out only after the whole batch,
    /// and an awaited result belongs to the last item handed out, a first pass.
    pub closed spec fn wf(&self) -> bool {
        &&& self.next <= self.batch@.len()
        &&& self.next_deferred <= self.deferred@.len()
        &&& self.next_deferred > 0 ==> self.next == self.batch@.len()
        &&& self.awaiting_first ==> self.next > 0 && self.batch@[self.next - 1].pass == WeakPass::First
            && self.next_deferred == 0
        &&& forall|i: int| 0 <= i < self.deferred@.len() ==> (#[trigger] self.deferred@[i]).pass
            == WeakPass::Second
    }

    /// A dispatch of `batch`, nothing handed out yet.
    pub fn new(batch: Vec<PendingWeak>) -> (d: WeakDispatch)
        ensures
            d.wf(),
            d.batch_spec() == batch@,
            d.next_spec() == 0,
            d.deferred_spec() == Seq::<PendingWeak>::empty(),
            d.next_deferred_spec() == 0,
            !d.awaiting_first_spec(),
    {
        WeakDispatch { batch, next: 0, deferred: Vec::new(), next_deferred: 0, awaiting_first: false }
    }

    /// The next invocation: the next item of the batch, else the next
    /// deferred second pass, else `None` when the batch is done. After a
    /// first pass the caller records its result before asking again.
    pub fn next_invocation(&mut self) -> (r: Option<WeakInvocation>)
        requires
            old(self).wf(),
            !old(self).awaiting_first_spec(),
        ensures
            final(self).wf(),
            final(self).batch_spec() == old(self).batch_spec(),
            final(self).deferred_spec() == old(self).deferred_spec(),
            old(self).next_spec() < old(self).batch_spec().len() ==> {
                let item = old(self).batch_spec()[old(self).next_spec()];
                &&& r == Some(invocation_of(item))
                &&& final(self).next_spec() == old(self).next_spec() + 1
                &&& final(self).next_deferred_spec() == old(self).next_deferred_spec()
                &&& final(self).awaiting_first_spec() == (item.pass == WeakPass::First)
            },
            old(self).next_spec() == old(self).batch_spec().len() && old(self).next_deferred_spec()
                < old(self).deferred_spec().len() ==> {
                let item = old(self).deferred_spec()[old(self).next_deferred_spec()];
                &&& r == Some(WeakInvocation::SecondPass { callback: item.callback, parameter: item.parameter })
                &&& final(self).next_spec() == old(self).next_spec()
                &&& final(self).next_deferred_spec() == old(self).next_deferred_spec() + 1
                &&& !final(self).awaiting_first_spec()
            },
            old(self).next_spec() == old(self).batch_spec().len() && old(self).next_deferred_spec()
                == old(self).deferred_spec().len() ==> {
                &&& r is None
                &&& final(self).next_spec() == old(self).next_spec()
                &&& final(self).next_deferred_spec() == old(self).next_deferred_spec()
                &&& !final(self).awaiting_first_spec()
            },
    {
        if self.next < self.batch.len() {
            let item = self.batch[self.next];
            self.next = self.next + 1;
            match item.pass {
                WeakPass::First => {
                    self.awaiting_first = true;
                    Some(WeakInvocation::FirstPass { callback: item.callback, parameter: item.parameter })
                },
                WeakPass::Second => Some(
                    WeakInvocation::SecondPass { callback: item.callback, parameter: item.parameter },
                ),
            }
        } else if self.next_deferred < self.deferred.len() {
            let item = self.deferred[self.next_deferred];
            self.next_deferred = self.next_deferred + 1;
            Some(WeakInvocation::SecondPass { callback: item.callback, parameter: item.parameter })
        } else {
            None
        }
    }

    /// Records what the first pass just handed out returned: whether it
    /// asks for a second pass, and that pass's callback. A requested pass
    /// with a non-null callback is deferred, with the item's parameter.
    pub fn record_first_pass(&mut self, needs_second: bool, second_pass: usize)
        requires
            old(self).wf(),
            old(self).awaiting_first_spec(),
        ensures
            final(self).wf(),
            !final(self).awaiting_first_spec(),
            final(self).batch_spec() == old(self).batch_spec(),
            final(self).next_spec() == old(self).next_spec(),
            final(self).next_deferred_spec() == old(self).next_deferred_spec(),
            final(self).deferred_spec() == (if needs_second && second_pass != 0 {
                let item = old(self).batch_spec()[old(self).next_spec() - 1];
                old(self).deferred_spec().push(
                    PendingWeak {
                        callback: second_pass,
                        parameter: item.parameter,
                        object_key: item.object_key,
                        pass: WeakPass::Second,
                    },
                )
            } else {
                old(self).deferred_spec()
            }),
    {
        self.awaiting_first = false;
        if let Some(callback) = second_pass_callback(needs_second, second_pass) {
            let item = self.batch[self.next - 1];
            self.deferred.push(
                PendingWeak {
                    callback,
                    parameter: item.parameter,
                    object_key: item.object_key,
                    pass: WeakPass::Second,
                },
            );
        }
    }
}

} // verus!
