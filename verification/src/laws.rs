use vstd::prelude::*;

use crate::bridge_state::BridgeState;
use crate::roots::RootEntry;
use crate::value::JsValue;

verus! {

/// Making the root `id` of an object weak moves the object into the weak
/// holds under its address, and `id` goes on resolving to the same object.
pub proof fn lemma_weak_root_still_resolves(before: BridgeState, after: BridgeState, id: u64, key: usize)
    requires
        before.roots@.contains_key(id),
        before.roots@[id].value.object_key_spec() == Some(key),
        after.roots@ == before.roots@.remove(id),
        after.weak_holds@ == before.weak_holds@.insert(key, before.roots@[id].value),
        after.weak_root_ids@ == crate::bridge_state::without_value(before.weak_root_ids@, key).insert(id, key),
    ensures
        after.object_for_root(id) == Some(before.roots@[id].value),
        !after.roots@.contains_key(id),
{
}

/// Once the only root of an object is made weak, asking for a strong root
/// of that object moves the weak hold back: the new root holds the same
/// object, the hold is gone and no weak root stands for the object any more.
pub proof fn lemma_weak_then_restrong(
    s0: BridgeState,
    s1: BridgeState,
    s2: BridgeState,
    id: u64,
    ptr: usize,
    made: (crate::status::RasterV8Status, Option<JsValue>),
    r: Result<crate::bridge_state::Restrong, crate::status::RasterV8Status>,
)
    requires
        ptr != 0,
        s0.roots@.contains_key(id),
        s0.roots@[id].value.object_key_spec() == Some(ptr),
        forall|j: u64| #[trigger] s0.roots@.contains_key(j) && j != id
            ==> s0.roots@[j].value.object_key_spec() != Some(ptr),
        s1.roots@ == s0.roots@.remove(id),
        crate::bridge_state::make_weak_outcome(s0, s1, id, made),
        crate::bridge_state::restrong_outcome(s1, s2, ptr, r),
    ensures
        r matches Ok(crate::bridge_state::Restrong::FromWeak(nid)) && s2.roots@.contains_key(nid)
            && s2.roots@[nid].value == s0.roots@[id].value,
        !s2.weak_holds@.contains_key(ptr),
        forall|k: u64| #[trigger] s2.weak_root_ids@.contains_key(k) ==> s2.weak_root_ids@[k] != ptr,
{
    assert(!crate::bridge_state::rooted_object(s1.roots@, ptr));
}

/// A function root registered for a function id is the root the id
/// resolves to, and the root remembers the id.
pub proof fn lemma_registered_function_resolves(before: BridgeState, after: BridgeState, function_id: u32, root: u64, func: JsValue)
    requires
        after.roots@ == before.roots@.insert(root, RootEntry { value: func, immortal: false }),
        after.function_roots@ == before.function_roots@.insert(function_id, root),
        after.root_function_ids@ == before.root_function_ids@.insert(root, function_id),
    ensures
        after.function_root_spec(function_id) == Some(root),
        after.root_function_ids@[root] == function_id,
        after.roots@[root].value == func,
{
}

/// Dropping a function's root makes its id resolve to no root.
pub proof fn lemma_dropped_function_root_is_gone(before: BridgeState, after: BridgeState, root: u64)
    requires
        before.root_function_ids@.contains_key(root),
        before.function_roots@.contains_key(before.root_function_ids@[root]),
        before.function_roots@[before.root_function_ids@[root]] == root,
        after.roots@ == before.roots@.remove(root),
        after.root_function_ids@ == before.root_function_ids@.remove(root),
        after.function_roots@ == before.function_roots@.remove(before.root_function_ids@[root]),
    ensures
        after.function_root_spec(before.root_function_ids@[root]) is None,
        !after.roots@.contains_key(root),
{
}

/// What was stored in an internal field of an object through one of its
/// roots is what reading that field through the root gives later, also
/// after the root was made weak, as long as the object's fields were not
/// stored again. A null pointer in field 0 reads as the engine's opaque
/// pointer of the object, which the store set to the same pointer.
pub proof fn lemma_internal_field_set_then_get(
    at_set: BridgeState,
    t0: crate::tables::ContextTables,
    t1: crate::tables::ContextTables,
    at_get: BridgeState,
    t2: crate::tables::ContextTables,
    root: u64,
    key: usize,
    index: i32,
    ptr: usize,
    opaque: usize,
)
    requires
        index >= 0,
        crate::fields::resolved_key(at_set, root) == Some(key),
        crate::tables::field_stored(t0, t1, key, root, index as int, ptr),
        crate::fields::resolved_key(at_get, root) == Some(key),
        t2.internal_fields@.contains_key(key),
        t2.internal_fields@[key] == t1.internal_fields@[key],
    ensures
        t2.field_read(crate::fields::resolved_key(at_get, root), root, index, opaque) == (if ptr == 0 && index == 0 {
            opaque
        } else {
            ptr
        }),
{
    assert(t1.internal_fields@.contains_key(key));
    assert(crate::tables::field_at(t2.internal_fields@, key, index as int) == Some(ptr));
}

/// Summing over two maps that agree on the listed keys gives the same total.
proof fn lemma_residual_same_on(m1: Map<usize, BridgeState>, m2: Map<usize, BridgeState>, rt: usize, ks: Seq<usize>)
    requires
        forall|i: int| 0 <= i < ks.len() ==> m1[#[trigger] ks[i]] == m2[ks[i]],
    ensures
        crate::registry::residual_along(m1, rt, ks) == crate::registry::residual_along(m2, rt, ks),
    decreases ks.len(),
{
    if ks.len() > 0 {
        assert(m1[ks[ks.len() - 1]] == m2[ks[ks.len() - 1]]);
        lemma_residual_same_on(m1, m2, rt, ks.drop_last());
    }
}

/// Tearing down one context takes exactly its own share out of the
/// residual count of its runtime; the other contexts' shares stay.
pub proof fn lemma_remove_context_residual(m: Map<usize, BridgeState>, k: usize, rt: usize)
    requires
        m.dom().finite(),
        m.contains_key(k),
    ensures
        crate::registry::residual_total(m, rt) == crate::registry::residual_total(m.remove(k), rt) + if m[k].runtime_key == rt {
            crate::registry::state_residual(m[k])
        } else {
            0
        },
{
    crate::registry::lemma_lists_keys_exist(m);
    let ks = choose|c: Seq<usize>| crate::registry::lists_keys(m, c);
    assert(crate::registry::lists_keys(m, ks));
    assert(ks.to_set().contains(k));
    let j = ks.index_of(k);
    let rest = ks.remove(j);
    crate::registry::lemma_residual_remove(m, rt, ks, j);
    let m2 = m.remove(k);
    assert(forall|i: int| 0 <= i < rest.len() ==> m[#[trigger] rest[i]] == m2[rest[i]]) by {
        assert forall|i: int| 0 <= i < rest.len() implies m[#[trigger] rest[i]] == m2[rest[i]] by {
            let ii = if i < j { i } else { i + 1 };
            assert(rest[i] == ks[ii]);
            assert(ii != j);
            assert(ks[ii] != k);
        }
    }
    lemma_residual_same_on(m, m2, rt, rest);
    crate::registry::lemma_remove_lists_keys(m, ks, j);
    crate::registry::lemma_lists_keys_exist(m2);
    let ks2 = choose|c: Seq<usize>| crate::registry::lists_keys(m2, c);
    crate::registry::lemma_residual_order(m2, rt, rest, ks2);
}

/// Tearing down a context that has no bridge state (one never bound, or
/// torn down before) leaves every state and the active context as they were.
pub proof fn lemma_remove_absent_context_changes_nothing(
    r1: crate::registry::BridgeRegistry,
    r2: crate::registry::BridgeRegistry,
    k: usize,
)
    requires
        !r1.states@.contains_key(k),
        crate::registry::context_removed(r1, r2, k),
    ensures
        r2.states@ == r1.states@,
        r2.active == r1.active,
{
    assert(r1.states@.remove(k) =~= r1.states@);
}

/// Tearing a context down twice is the same as tearing it down once.
pub proof fn lemma_remove_context_idempotent(
    r0: crate::registry::BridgeRegistry,
    r1: crate::registry::BridgeRegistry,
    r2: crate::registry::BridgeRegistry,
    k: usize,
)
    requires
        crate::registry::context_removed(r0, r1, k),
        crate::registry::context_removed(r1, r2, k),
    ensures
        !r1.states@.contains_key(k),
        r2.states@ == r1.states@,
        r2.active == r1.active,
{
    lemma_remove_absent_context_changes_nothing(r1, r2, k);
}

/// Tearing one context down leaves every other context's state as it was.
pub proof fn lemma_remove_context_keeps_siblings(m: Map<usize, BridgeState>, k: usize, other: usize)
    requires
        other != k,
        m.contains_key(other),
    ensures
        m.remove(k).contains_key(other),
        m.remove(k)[other] == m[other],
{
}

/// Every slot listed along `ks` comes from a key of `ks`.
proof fn lemma_registered_slots_keys(m: Map<usize, crate::tables::WeakSlot>, ks: Seq<usize>, j: int)
    requires
        0 <= j < crate::tables::registered_slots(m, ks).len(),
    ensures
        ks.contains(crate::tables::registered_slots(m, ks)[j].0),
        m[crate::tables::registered_slots(m, ks)[j].0].phase == crate::tables::WeakPhase::Registered,
    decreases ks.len(),
{
    let rest = crate::tables::registered_slots(m, ks.drop_last());
    if j < rest.len() {
        lemma_registered_slots_keys(m, ks.drop_last(), j);
        let i = choose|i: int| 0 <= i < ks.drop_last().len() && ks.drop_last()[i] == rest[j].0;
        assert(ks[i] == rest[j].0);
    } else {
        assert(ks[ks.len() - 1] == ks.last());
    }
}

/// A weak callback that was cleared is not among the callbacks that a
/// teardown invokes without waiting for collection.
pub proof fn lemma_cleared_weak_callback_never_forced(
    m: Map<usize, crate::tables::WeakSlot>,
    key: usize,
    ks: Seq<usize>,
    j: int,
)
    requires
        ks.to_set() == m.remove(key).dom(),
        0 <= j < crate::tables::registered_slots(m.remove(key), ks).len(),
    ensures
        crate::tables::registered_slots(m.remove(key), ks)[j].0 != key,
{
    lemma_registered_slots_keys(m.remove(key), ks, j);
    let k = crate::tables::registered_slots(m.remove(key), ks)[j].0;
    assert(ks.to_set().contains(k));
}

/// The weak callback of a collected object, once due, is not among the
/// callbacks that a teardown invokes without waiting: it runs from the
/// pending queue only.
pub proof fn lemma_due_weak_callback_not_forced(
    m: Map<usize, crate::tables::WeakSlot>,
    key: usize,
    slot: crate::tables::WeakSlot,
    ks: Seq<usize>,
    j: int,
)
    requires
        slot.phase == crate::tables::WeakPhase::Pending,
        0 <= j < crate::tables::registered_slots(m.insert(key, slot), ks).len(),
    ensures
        crate::tables::registered_slots(m.insert(key, slot), ks)[j].0 != key,
{
    lemma_registered_slots_keys(m.insert(key, slot), ks, j);
}

/// Storing or removing the side tables of one context leaves every other
/// context's tables, and whether it has any, as they were.
pub proof fn lemma_context_tables_isolated(
    m: Map<usize, crate::tables::ContextTables>,
    k: usize,
    t: crate::tables::ContextTables,
    other: usize,
)
    requires
        other != k,
    ensures
        m.insert(k, t).contains_key(other) == m.contains_key(other),
        m.remove(k).contains_key(other) == m.contains_key(other),
        m.contains_key(other) ==> m.insert(k, t)[other] == m[other] && m.remove(k)[other] == m[other],
{
}

/// After the field count of an object is declared, its count stays the
/// declared one however its fields are stored afterwards (stores leave the
/// declared counts unchanged).
pub proof fn lemma_declared_field_count_stays(
    reserved: crate::tables::ContextTables,
    later: crate::tables::ContextTables,
    key: usize,
    n: usize,
)
    requires
        reserved.object_field_counts@.contains_key(key),
        reserved.object_field_counts@[key] == n,
        later.object_field_counts@ == reserved.object_field_counts@,
    ensures
        later.field_count(Some(key)) == n,
{
}

/// Once a function root is registered for a function id, asking for that
/// function again gives the same root and roots nothing new.
pub proof fn lemma_cached_function_reused(
    before: BridgeState,
    registered: BridgeState,
    asked: BridgeState,
    function_id: u32,
    root: u64,
    func: JsValue,
    r: Option<u64>,
)
    requires
        registered.roots@ == before.roots@.insert(root, RootEntry { value: func, immortal: false }),
        registered.function_roots@ == before.function_roots@.insert(function_id, root),
        r == registered.function_root_spec(function_id),
        asked.roots == registered.roots,
    ensures
        r == Some(root),
        asked.roots@ == registered.roots@,
{
}

/// Asking for a strong root of an object that already has one gives the
/// very root that looking the object up gives: its least root, with no
/// root added.
pub proof fn lemma_restrong_existing_is_lookup(
    pre: BridgeState,
    post: BridgeState,
    ptr: usize,
    looked_up: u64,
    r: Result<crate::bridge_state::Restrong, crate::status::RasterV8Status>,
)
    requires
        crate::roots::is_least_root(pre.roots@, ptr, looked_up),
        crate::bridge_state::restrong_outcome(pre, post, ptr, r),
    ensures
        r == Ok::<crate::bridge_state::Restrong, crate::status::RasterV8Status>(
            crate::bridge_state::Restrong::Existing(looked_up),
        ),
        post.roots == pre.roots,
{
    assert(pre.roots@.contains_key(looked_up));
}

/// Shutting a context down twice is the same as shutting it down once:
/// after the first, the context has no bridge state (nor side tables, when
/// it had a state), and the second leaves every state, all side tables and
/// the active context as they were.
pub proof fn lemma_context_shutdown_twice_is_once(
    r0: crate::registry::BridgeRegistry,
    t0: crate::context_tables::ContextTableRegistry,
    r1: crate::registry::BridgeRegistry,
    t1: crate::context_tables::ContextTableRegistry,
    r2: crate::registry::BridgeRegistry,
    t2: crate::context_tables::ContextTableRegistry,
    ctx: usize,
)
    requires
        crate::context_tables::context_shut_down(r0, t0, r1, t1, ctx),
        crate::context_tables::context_shut_down(r1, t1, r2, t2, ctx),
    ensures
        !r1.states@.contains_key(ctx),
        r0.states@.contains_key(ctx) ==> !t1.tables@.contains_key(ctx),
        r2.states@ == r1.states@,
        r2.active == r1.active,
        t2.tables@ == t1.tables@,
{
    if r0.states@.contains_key(ctx) {
        assert(!r1.states@.contains_key(ctx));
    }
}

} // verus!
