use vstd::prelude::*;

use crate::status::RasterV8Status;
use crate::value::{JsValue, TAG_UNDEFINED};

verus! {

/// One step the engine side takes after a native callback returned.
#[derive(Clone, Copy, Debug, PartialEq, Eq, Structural)]
pub enum TrampolineStep {
    /// Drop this root.
    Drop(u64),
    /// Read the value of this root (a new reference; `undefined` when the
    /// root is gone); the last value read is the one returned.
    Read(u64),
}

/// What the engine side returns to JavaScript after a native callback.
#[derive(Clone, Copy, Debug, PartialEq, Eq, Structural)]
pub enum TrampolineReturn {
    /// The pending exception.
    PendingException,
    /// `undefined`.
    Undefined,
    /// The instance created for a construct call.
    Instance,
    /// The last value read.
    ReadValue,
}

/// The steps after a native callback and what to return.
#[derive(Clone, Debug, PartialEq, Eq)]
pub struct TrampolineOutcome {
    pub steps: Vec<TrampolineStep>,
    pub ret: TrampolineReturn,
    /// The instance created for a construct call must be released.
    pub free_instance: bool,
}

/// Dropping the call's temporary roots: the receiver, the new target when
/// there is one, then the arguments in order.
pub open spec fn release_steps(receiver_root: u64, new_target_root: u64, arg_roots: Seq<u64>) -> Seq<TrampolineStep> {
    seq![TrampolineStep::Drop(receiver_root)] + (if new_target_root != 0 {
        seq![TrampolineStep::Drop(new_target_root)]
    } else {
        Seq::<TrampolineStep>::empty()
    }) + arg_roots.map_values(|r: u64| TrampolineStep::Drop(r))
}

/// The steps and the return of a native callback called from JavaScript.
pub open spec fn outcome_spec(
    status: RasterV8Status,
    has_exception: bool,
    constructed: bool,
    receiver_root: u64,
    new_target_root: u64,
    arg_roots: Seq<u64>,
    result_root: u64,
) -> (Seq<TrampolineStep>, TrampolineReturn, bool) {
    let release = release_steps(receiver_root, new_target_root, arg_roots);
    if status == RasterV8Status::Exception || has_exception {
        (release, TrampolineReturn::PendingException, constructed)
    } else if status != RasterV8Status::Success {
        (Seq::empty(), TrampolineReturn::Undefined, false)
    } else if constructed {
        (
            release + (if result_root != 0 && result_root != receiver_root {
                seq![TrampolineStep::Drop(result_root)]
            } else {
                Seq::<TrampolineStep>::empty()
            }),
            TrampolineReturn::Instance,
            false,
        )
    } else if result_root != 0 && result_root != receiver_root {
        (
            release + seq![TrampolineStep::Read(result_root), TrampolineStep::Drop(result_root)],
            TrampolineReturn::ReadValue,
            false,
        )
    } else if result_root != 0 {
        (seq![TrampolineStep::Read(receiver_root)] + release, TrampolineReturn::ReadValue, false)
    } else {
        (release, TrampolineReturn::Undefined, false)
    }
}

/// Every temporary root of the call is among its release steps: the
/// receiver, the new target when there is one, and each argument.
pub proof fn lemma_release_drops_every_temporary(receiver_root: u64, new_target_root: u64, arg_roots: Seq<u64>)
    ensures
        release_steps(receiver_root, new_target_root, arg_roots).contains(TrampolineStep::Drop(receiver_root)),
        new_target_root != 0 ==> release_steps(receiver_root, new_target_root, arg_roots).contains(
            TrampolineStep::Drop(new_target_root),
        ),
        forall|i: int| 0 <= i < arg_roots.len() ==> release_steps(receiver_root, new_target_root, arg_roots).contains(
            TrampolineStep::Drop(#[trigger] arg_roots[i]),
        ),
        forall|j: int| 0 <= j < release_steps(receiver_root, new_target_root, arg_roots).len()
            ==> (#[trigger] release_steps(receiver_root, new_target_root, arg_roots)[j]) is Drop,
{
    let rel = release_steps(receiver_root, new_target_root, arg_roots);
    let head: Seq<TrampolineStep> = seq![TrampolineStep::Drop(receiver_root)] + (if new_target_root != 0 {
        seq![TrampolineStep::Drop(new_target_root)]
    } else {
        Seq::<TrampolineStep>::empty()
    });
    let tail = arg_roots.map_values(|r: u64| TrampolineStep::Drop(r));
    assert(rel == head + tail);
    assert(rel[0] == TrampolineStep::Drop(receiver_root));
    if new_target_root != 0 {
        assert(rel[1] == TrampolineStep::Drop(new_target_root));
    }
    assert forall|i: int| 0 <= i < arg_roots.len() implies rel.contains(TrampolineStep::Drop(#[trigger] arg_roots[i])) by {
        assert(rel[head.len() + i] == tail[i]);
    }
}

/// What a native callback called from JavaScript returns, for every input:
/// the pending exception when there is one (the instance of a construct
/// call then released); `undefined`, with nothing dropped, when the callback
/// failed otherwise; after success, the instance of a construct call
/// whatever result was set, else `undefined` when no result was set and
/// the result read back when one was. Every temporary root of the call is
/// dropped whenever the callback did not fail without an exception.
pub proof fn lemma_trampoline_returns(
    status: RasterV8Status,
    has_exception: bool,
    constructed: bool,
    receiver_root: u64,
    new_target_root: u64,
    arg_roots: Seq<u64>,
    result_root: u64,
)
    ensures
        ({
            let (steps, ret, free_instance) = outcome_spec(
                status,
                has_exception,
                constructed,
                receiver_root,
                new_target_root,
                arg_roots,
                result_root,
            );
            &&& (status == RasterV8Status::Exception || has_exception) ==> ret == TrampolineReturn::PendingException
                && free_instance == constructed
            &&& (status != RasterV8Status::Exception && !has_exception && status != RasterV8Status::Success)
                ==> ret == TrampolineReturn::Undefined && steps.len() == 0 && !free_instance
            &&& (status == RasterV8Status::Success && !has_exception && constructed) ==> ret
                == TrampolineReturn::Instance && !free_instance
            &&& (status == RasterV8Status::Success && !has_exception && !constructed && result_root == 0) ==> ret
                == TrampolineReturn::Undefined && !free_instance
            &&& (status == RasterV8Status::Success && !has_exception && !constructed && result_root != 0) ==> ret
                == TrampolineReturn::ReadValue && !free_instance && steps.contains(TrampolineStep::Read(result_root))
            &&& (status == RasterV8Status::Success || status == RasterV8Status::Exception || has_exception) ==> {
                &&& steps.contains(TrampolineStep::Drop(receiver_root))
                &&& forall|i: int| 0 <= i < arg_roots.len() ==> steps.contains(
                    TrampolineStep::Drop(#[trigger] arg_roots[i]),
                )
            }
        }),
{
    lemma_release_drops_every_temporary(receiver_root, new_target_root, arg_roots);
    let rel = release_steps(receiver_root, new_target_root, arg_roots);
    let (steps, ret, free_instance) = outcome_spec(
        status,
        has_exception,
        constructed,
        receiver_root,
        new_target_root,
        arg_roots,
        result_root,
    );
    if status == RasterV8Status::Exception || has_exception {
    } else if status != RasterV8Status::Success {
    } else {
        let extra: Seq<TrampolineStep> = if constructed {
            if result_root != 0 && result_root != receiver_root {
                seq![TrampolineStep::Drop(result_root)]
            } else {
                Seq::<TrampolineStep>::empty()
            }
        } else if result_root != 0 && result_root != receiver_root {
            seq![TrampolineStep::Read(result_root), TrampolineStep::Drop(result_root)]
        } else {
            Seq::<TrampolineStep>::empty()
        };
        if constructed || result_root == 0 || result_root != receiver_root {
            assert(steps == rel + extra);
            assert forall|x: TrampolineStep| rel.contains(x) implies steps.contains(x) by {
                let j = choose|j: int| 0 <= j < rel.len() && rel[j] == x;
                assert(steps[j] == x);
            }
            if !constructed && result_root != 0 {
                assert(steps[rel.len() as int] == TrampolineStep::Read(result_root));
            }
        } else {
            let pre = seq![TrampolineStep::Read(receiver_root)];
            assert(steps == pre + rel);
            assert(steps[0] == TrampolineStep::Read(result_root));
            assert forall|x: TrampolineStep| rel.contains(x) implies steps.contains(x) by {
                let j = choose|j: int| 0 <= j < rel.len() && rel[j] == x;
                assert(steps[j + 1] == x);
            }
        }
    }
}

/// Appends the drops of the call's temporary roots to `steps`.
fn push_release(steps: &mut Vec<TrampolineStep>, receiver_root: u64, new_target_root: u64, arg_roots: &Vec<u64>)
    ensures
        final(steps)@ == old(steps)@ + release_steps(receiver_root, new_target_root, arg_roots@),
{
    let ghost start = steps@;
    steps.push(TrampolineStep::Drop(receiver_root));
    if new_target_root != 0 {
        steps.push(TrampolineStep::Drop(new_target_root));
    }
    let ghost head = steps@;
    assert(head == start + seq![TrampolineStep::Drop(receiver_root)] + (if new_target_root != 0 {
        seq![TrampolineStep::Drop(new_target_root)]
    } else {
        Seq::<TrampolineStep>::empty()
    }));
    let mut i: usize = 0;
    while i < arg_roots.len()
        invariant
            0 <= i <= arg_roots.len(),
            steps@ == head + arg_roots@.take(i as int).map_values(|r: u64| TrampolineStep::Drop(r)),
        decreases arg_roots.len() - i,
    {
        steps.push(TrampolineStep::Drop(arg_roots[i]));
        assert(arg_roots@.take(i as int + 1).map_values(|r: u64| TrampolineStep::Drop(r))
            =~= arg_roots@.take(i as int).map_values(|r: u64| TrampolineStep::Drop(r)).push(
            TrampolineStep::Drop(arg_roots@[i as int]),
        ));
        i = i + 1;
    }
    assert(arg_roots@.take(arg_roots@.len() as int) == arg_roots@);
    assert(steps@ =~= start + release_steps(receiver_root, new_target_root, arg_roots@));
}

/// The steps after a native callback called from JavaScript returned
/// `status` with `result_root`, and what to return: the pending exception
/// (after dropping the temporaries and the instance), `undefined` when the
/// callback failed otherwise, the instance of a construct call, else the
/// result, the receiver when the callback returned it, or `undefined`.
pub fn trampoline_outcome(
    status: RasterV8Status,
    has_exception: bool,
    constructed: bool,
    receiver_root: u64,
    new_target_root: u64,
    arg_roots: &Vec<u64>,
    result_root: u64,
) -> (o: TrampolineOutcome)
    ensures
        (o.steps@, o.ret, o.free_instance) == outcome_spec(
            status,
            has_exception,
            constructed,
            receiver_root,
            new_target_root,
            arg_roots@,
            result_root,
        ),
        status == RasterV8Status::Success && !has_exception && constructed ==> o.ret == TrampolineReturn::Instance
            && !o.free_instance,
        status == RasterV8Status::Success && !has_exception && !constructed ==> o.ret == (if result_root == 0 {
            TrampolineReturn::Undefined
        } else {
            TrampolineReturn::ReadValue
        }),
        status == RasterV8Status::Exception || has_exception ==> o.ret == TrampolineReturn::PendingException
            && o.free_instance == constructed,
        (status == RasterV8Status::Success || status == RasterV8Status::Exception || has_exception) ==> forall|
            i: int,
        | 0 <= i < arg_roots@.len() ==> o.steps@.contains(TrampolineStep::Drop(#[trigger] arg_roots@[i])),
{
    proof {
        lemma_trampoline_returns(status, has_exception, constructed, receiver_root, new_target_root, arg_roots@, result_root);
    }
    let mut steps: Vec<TrampolineStep> = Vec::new();
    if status == RasterV8Status::Exception || has_exception {
        push_release(&mut steps, receiver_root, new_target_root, arg_roots);
        assert(steps@ =~= release_steps(receiver_root, new_target_root, arg_roots@));
        return TrampolineOutcome { steps, ret: TrampolineReturn::PendingException, free_instance: constructed };
    }
    if status != RasterV8Status::Success {
        return TrampolineOutcome { steps, ret: TrampolineReturn::Undefined, free_instance: false };
    }
    if constructed {
        push_release(&mut steps, receiver_root, new_target_root, arg_roots);
        let ghost rel = steps@;
        if result_root != 0 && result_root != receiver_root {
            steps.push(TrampolineStep::Drop(result_root));
        }
        assert(steps@ =~= release_steps(receiver_root, new_target_root, arg_roots@) + (if result_root != 0
            && result_root != receiver_root {
            seq![TrampolineStep::Drop(result_root)]
        } else {
            Seq::<TrampolineStep>::empty()
        }));
        return TrampolineOutcome { steps, ret: TrampolineReturn::Instance, free_instance: false };
    }
    if result_root != 0 && result_root != receiver_root {
        push_release(&mut steps, receiver_root, new_target_root, arg_roots);
        steps.push(TrampolineStep::Read(result_root));
        steps.push(TrampolineStep::Drop(result_root));
        assert(steps@ =~= release_steps(receiver_root, new_target_root, arg_roots@) + seq![
            TrampolineStep::Read(result_root),
            TrampolineStep::Drop(result_root),
        ]);
        return TrampolineOutcome { steps, ret: TrampolineReturn::ReadValue, free_instance: false };
    }
    if result_root != 0 {
        steps.push(TrampolineStep::Read(receiver_root));
        push_release(&mut steps, receiver_root, new_target_root, arg_roots);
        assert(steps@ =~= seq![TrampolineStep::Read(receiver_root)] + release_steps(
            receiver_root,
            new_target_root,
            arg_roots@,
        ));
        return TrampolineOutcome { steps, ret: TrampolineReturn::ReadValue, free_instance: false };
    }
    push_release(&mut steps, receiver_root, new_target_root, arg_roots);
    assert(steps@ =~= release_steps(receiver_root, new_target_root, arg_roots@));
    TrampolineOutcome { steps, ret: TrampolineReturn::Undefined, free_instance: false }
}

/// A call of a constructor-or-function is a construct call when the
/// function was made with constructor semantics and the engine passed a
/// receiver other than `undefined` (the new target).
pub fn is_construct_call(use_constructor_semantics: bool, this_val: JsValue) -> (b: bool)
    ensures
        b == (use_constructor_semantics && this_val.tag != TAG_UNDEFINED),
{
    use_constructor_semantics && this_val.tag != TAG_UNDEFINED
}

/// The steps after a native accessor returned `status` with `result_root`:
/// the receiver's temporary root is dropped; on success with a result, the
/// result is read, dropped and returned; otherwise `undefined` is returned.
pub fn accessor_outcome(status: RasterV8Status, receiver_root: u64, result_root: u64) -> (o: TrampolineOutcome)
    ensures
        status != RasterV8Status::Success || result_root == 0 ==> o.steps@ == seq![
            TrampolineStep::Drop(receiver_root),
        ] && o.ret == TrampolineReturn::Undefined,
        status == RasterV8Status::Success && result_root != 0 ==> o.steps@ == seq![
            TrampolineStep::Drop(receiver_root),
            TrampolineStep::Read(result_root),
            TrampolineStep::Drop(result_root),
        ] && o.ret == TrampolineReturn::ReadValue,
        !o.free_instance,
{
    let mut steps: Vec<TrampolineStep> = Vec::new();
    steps.push(TrampolineStep::Drop(receiver_root));
    if status != RasterV8Status::Success || result_root == 0 {
        return TrampolineOutcome { steps, ret: TrampolineReturn::Undefined, free_instance: false };
    }
    steps.push(TrampolineStep::Read(result_root));
    steps.push(TrampolineStep::Drop(result_root));
    TrampolineOutcome { steps, ret: TrampolineReturn::ReadValue, free_instance: false }
}

} // verus!
