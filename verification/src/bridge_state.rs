use std::collections::HashMap;
use vstd::prelude::*;

use crate::maps::keys_of;
use crate::roots::{RootEntry, RootTable};
use crate::status::RasterV8Status;
use crate::tables::{ContextTables, WeakSlot};
use crate::value::{object_ptr_key, JsValue};

verus! {

broadcast use vstd::std_specs::hash::group_hash_axioms;

/// `m` without the entries whose value is `key`.
pub open spec fn without_value(m: Map<u64, usize>, key: usize) -> Map<u64, usize> {
    Map::new(|r: u64| m.contains_key(r) && m[r] != key, |r: u64| m[r])
}

/// The values of `m` along `ks`, in that order.
pub open spec fn values_along(m: Map<usize, JsValue>, ks: Seq<usize>) -> Seq<JsValue> {
    ks.map_values(|k: usize| m[k])
}

/// Some root holds the object at address `key`.
pub open spec fn rooted_object(roots: Map<u64, RootEntry>, key: usize) -> bool {
    exists|id: u64| #[trigger] roots.contains_key(id) && roots[id].value.object_key_spec() == Some(key)
}

/// The object held weakly at `key` can be let go: no root holds it any
/// more and a weak callback is registered for it.
pub open spec fn collectable(
    roots: Map<u64, RootEntry>,
    holds: Map<usize, JsValue>,
    callbacks: Map<usize, WeakSlot>,
    key: usize,
) -> bool {
    &&& holds.contains_key(key)
    &&& !rooted_object(roots, key)
    &&& callbacks.contains_key(key)
}

/// The keys along `ks` that are collectable, in that order.
pub open spec fn collected_keys(
    roots: Map<u64, RootEntry>,
    holds: Map<usize, JsValue>,
    callbacks: Map<usize, WeakSlot>,
    ks: Seq<usize>,
) -> Seq<usize>
    decreases ks.len(),
{
    if ks.len() == 0 {
        Seq::empty()
    } else if collectable(roots, holds, callbacks, ks.last()) {
        collected_keys(roots, holds, callbacks, ks.drop_last()).push(ks.last())
    } else {
        collected_keys(roots, holds, callbacks, ks.drop_last())
    }
}

/// A weak hold is let go exactly when its object is held weakly, no root
/// holds it any more, and a weak callback is registered for it.
pub proof fn lemma_collectable_exactly(
    roots: Map<u64, RootEntry>,
    holds: Map<usize, JsValue>,
    callbacks: Map<usize, WeakSlot>,
    key: usize,
)
    ensures
        collectable(roots, holds, callbacks, key) <==> (holds.contains_key(key) && callbacks.contains_key(key) && forall|
            id: u64,
        | #[trigger] roots.contains_key(id) ==> roots[id].value.object_key_spec() != Some(key)),
{
}

/// Walking keys that occur once each, the keys let go are every collectable
/// key met, and only those.
pub proof fn lemma_collected_keys_are_the_collectable(
    roots: Map<u64, RootEntry>,
    holds: Map<usize, JsValue>,
    callbacks: Map<usize, WeakSlot>,
    ks: Seq<usize>,
)
    ensures
        forall|k: usize| ks.contains(k) && #[trigger] collectable(roots, holds, callbacks, k) ==> collected_keys(
            roots,
            holds,
            callbacks,
            ks,
        ).contains(k),
        forall|j: int| 0 <= j < collected_keys(roots, holds, callbacks, ks).len() ==> ks.contains(
            #[trigger] collected_keys(roots, holds, callbacks, ks)[j],
        ) && collectable(roots, holds, callbacks, collected_keys(roots, holds, callbacks, ks)[j]),
    decreases ks.len(),
{
    if ks.len() > 0 {
        let front = ks.drop_last();
        lemma_collected_keys_are_the_collectable(roots, holds, callbacks, front);
        let rest = collected_keys(roots, holds, callbacks, front);
        let out = collected_keys(roots, holds, callbacks, ks);
        assert forall|k: usize| ks.contains(k) && #[trigger] collectable(roots, holds, callbacks, k) implies out.contains(k) by {
            if k == ks.last() {
                assert(out[out.len() - 1] == k);
            } else {
                let i = choose|i: int| 0 <= i < ks.len() && ks[i] == k;
                assert(front[i] == k);
                assert(front.contains(k));
                let j = choose|j: int| 0 <= j < rest.len() && rest[j] == k;
                assert(out[j] == k);
            }
        }
        assert forall|j: int| 0 <= j < out.len() implies ks.contains(#[trigger] out[j]) && collectable(roots, holds, callbacks, out[j]) by {
            if j < rest.len() {
                assert(out[j] == rest[j]);
                let i = choose|i: int| 0 <= i < front.len() && front[i] == rest[j];
                assert(ks[i] == rest[j]);
            } else {
                assert(ks[ks.len() - 1] == out[j]);
            }
        }
    }
}

/// The values of the non-zero ids along `ids` that are roots, in order.
pub open spec fn present_values(roots: Map<u64, RootEntry>, ids: Seq<u64>) -> Seq<JsValue>
    decreases ids.len(),
{
    if ids.len() == 0 {
        Seq::empty()
    } else {
        let rest = present_values(roots, ids.drop_last());
        let id = ids.last();
        if id != 0 && roots.contains_key(id) {
            rest.push(roots[id].value)
        } else {
            rest
        }
    }
}

/// Where the new target of a construct call comes from.
#[derive(Clone, Copy, Debug, PartialEq, Eq, Structural)]
pub enum NewTargetSource {
    /// The receiver the engine passed is the new target.
    Receiver,
    /// The cached function of the called function id.
    Function(JsValue),
    /// There is none (root 0).
    Absent,
}

/// The values looked up for a list of root ids are, in order, those of the
/// ids that are live roots, 0 naming none: each element is the value of such
/// an id, and each such id's value is among them.
pub proof fn lemma_present_values_are_the_live_ones(roots: Map<u64, RootEntry>, ids: Seq<u64>)
    ensures
        forall|i: int| 0 <= i < ids.len() && ids[i] != 0 && roots.contains_key(#[trigger] ids[i])
            ==> present_values(roots, ids).contains(roots[ids[i]].value),
        forall|j: int|
            #![trigger present_values(roots, ids)[j]]
            0 <= j < present_values(roots, ids).len() ==> exists|i: int|
                0 <= i < ids.len() && ids[i] != 0 && roots.contains_key(#[trigger] ids[i]) && roots[ids[i]].value
                    == present_values(roots, ids)[j],
        present_values(roots, ids).len() <= ids.len(),
    decreases ids.len(),
{
    if ids.len() > 0 {
        let front = ids.drop_last();
        lemma_present_values_are_the_live_ones(roots, front);
        let rest = present_values(roots, front);
        let out = present_values(roots, ids);
        assert forall|i: int| 0 <= i < ids.len() && ids[i] != 0 && roots.contains_key(#[trigger] ids[i])
            implies out.contains(roots[ids[i]].value) by {
            if i == ids.len() - 1 {
                assert(out[out.len() - 1] == roots[ids[i]].value);
            } else {
                assert(front[i] == ids[i]);
                let j = choose|j: int| 0 <= j < rest.len() && rest[j] == roots[front[i]].value;
                assert(out[j] == rest[j]);
            }
        }
        assert forall|j: int|
            #![trigger out[j]]
            0 <= j < out.len() implies exists|i: int|
                0 <= i < ids.len() && ids[i] != 0 && roots.contains_key(#[trigger] ids[i]) && roots[ids[i]].value
                    == out[j] by {
            if j < rest.len() {
                assert(out[j] == rest[j]);
                let i = choose|i: int|
                    0 <= i < front.len() && front[i] != 0 && roots.contains_key(#[trigger] front[i])
                        && roots[front[i]].value == rest[j];
                assert(ids[i] == front[i]);
            } else {
                assert(ids[ids.len() - 1] == ids.last());
            }
        }
    }
}

/// How an object address was turned back into a strong root.
#[derive(Clone, Copy, Debug, PartialEq, Eq, Structural)]
pub enum Restrong {
    /// The object was already rooted under this id.
    Existing(u64),
    /// The object sat in a weak hold; its reference moved to this new root.
    FromWeak(u64),
    /// The object was neither; it is rooted under this new id and the
    /// caller takes a new reference to it.
    Fresh(u64),
}

impl Restrong {
    /// The root id the object is reachable under.
    pub open spec fn id_spec(self) -> u64 {
        match self {
            Restrong::Existing(id) => id,
            Restrong::FromWeak(id) => id,
            Restrong::Fresh(id) => id,
        }
    }
}

/// What a request for a strong root of the object at the non-null address
/// `ptr` did, taking `pre` to `post` and answering `r`: it handed out the
/// least existing root of that object and changed nothing; else it moved the
/// object's weak hold back into the roots under a fresh id; else it rooted
/// the object afresh. In the last two cases no weak root stands for `ptr`
/// afterwards.
pub open spec fn restrong_outcome(
    pre: BridgeState,
    post: BridgeState,
    ptr: usize,
    r: Result<Restrong, RasterV8Status>,
) -> bool {
    match r {
        Ok(Restrong::Existing(id)) => {
            &&& crate::roots::is_least_root(pre.roots@, ptr, id)
            &&& post.roots == pre.roots
            &&& post.weak_holds@ == pre.weak_holds@
            &&& post.weak_root_ids@ == pre.weak_root_ids@
        },
        Ok(Restrong::FromWeak(id)) => {
            &&& !rooted_object(pre.roots@, ptr)
            &&& pre.weak_holds@.contains_key(ptr)
            &&& id == pre.roots.next_id_spec()
            &&& post.roots.next_id_spec() == pre.roots.next_id_spec() + 1
            &&& post.roots@ == pre.roots@.insert(
                id,
                crate::roots::RootEntry { value: pre.weak_holds@[ptr], immortal: false },
            )
            &&& post.weak_holds@ == pre.weak_holds@.remove(ptr)
            &&& post.weak_root_ids@ == without_value(pre.weak_root_ids@, ptr)
        },
        Ok(Restrong::Fresh(id)) => {
            &&& !rooted_object(pre.roots@, ptr)
            &&& !pre.weak_holds@.contains_key(ptr)
            &&& id == pre.roots.next_id_spec()
            &&& post.roots.next_id_spec() == pre.roots.next_id_spec() + 1
            &&& post.roots@ == pre.roots@.insert(
                id,
                crate::roots::RootEntry { value: JsValue { tag: crate::value::TAG_OBJECT, payload: ptr as u64 }, immortal: false },
            )
            &&& post.weak_holds@ == pre.weak_holds@
            &&& post.weak_root_ids@ == without_value(pre.weak_root_ids@, ptr)
        },
        Err(_) => false,
    }
}

/// What making root `id` weak did, taking `pre` to `post` and answering
/// `r`: `Error` with nothing changed when `id` names no root; else the
/// value left the roots and, for an object, is held weakly under its
/// address with `id` as its one weak root, or, for any other value, is
/// handed back.
pub open spec fn make_weak_outcome(
    pre: BridgeState,
    post: BridgeState,
    id: u64,
    r: (RasterV8Status, Option<JsValue>),
) -> bool {
    if !pre.roots@.contains_key(id) {
        &&& r == (RasterV8Status::Error, None::<JsValue>)
        &&& post.weak_holds@ == pre.weak_holds@
        &&& post.weak_root_ids@ == pre.weak_root_ids@
    } else {
        let v = pre.roots@[id].value;
        match v.object_key_spec() {
            Some(key) => {
                &&& r == (RasterV8Status::Success, None::<JsValue>)
                &&& post.weak_holds@ == pre.weak_holds@.insert(key, v)
                &&& post.weak_root_ids@ == without_value(pre.weak_root_ids@, key).insert(id, key)
            },
            None => {
                &&& r == (RasterV8Status::Success, Some(v))
                &&& post.weak_holds@ == pre.weak_holds@
                &&& post.weak_root_ids@ == pre.weak_root_ids@
            },
        }
    }
}

/// Removes from `m` every entry whose value is `key`.
fn remove_entries_with_value(m: &mut HashMap<u64, usize>, key: usize)
    ensures
        final(m)@ == without_value(old(m)@, key),
{
    let ghost m0 = m@;
    let ks = keys_of(m);
    let mut i: usize = 0;
    while i < ks.len()
        invariant
            0 <= i <= ks.len(),
            ks@.to_set() == m0.dom(),
            ks@.no_duplicates(),
            m@ == Map::new(
                |r: u64| m0.contains_key(r) && (m0[r] != key || !ks@.take(i as int).contains(r)),
                |r: u64| m0[r],
            ),
        decreases ks.len() - i,
    {
        let r = ks[i];
        assert(ks@.to_set().contains(r));
        assert(!ks@.take(i as int).contains(r)) by {
            if ks@.take(i as int).contains(r) {
                let j = choose|j: int| 0 <= j < i && ks@.take(i as int)[j] == r;
                assert(ks@[j] == ks@[i as int]);
            }
        }
        let v = *m.get(&r).unwrap();
        if v == key {
            m.remove(&r);
        }
        let ghost next = ks@.take(i as int + 1);
        assert(next == ks@.take(i as int).push(r));
        assert forall|q: u64| #[trigger] next.contains(q) <==> (ks@.take(i as int).contains(q) || q == r) by {
            if next.contains(q) {
                let j = choose|j: int| 0 <= j < next.len() && next[j] == q;
                if j < i {
                    assert(ks@.take(i as int)[j] == q);
                }
            }
            if q == r {
                assert(next[i as int] == r);
            }
            if ks@.take(i as int).contains(q) {
                let j = choose|j: int| 0 <= j < i && ks@.take(i as int)[j] == q;
                assert(next[j] == q);
            }
        }
        assert(m@ =~= Map::new(
            |q: u64| m0.contains_key(q) && (m0[q] != key || !next.contains(q)),
            |q: u64| m0[q],
        ));
        i = i + 1;
    }
    assert(ks@.take(ks@.len() as int) == ks@);
    assert(m@ =~= without_value(m0, key)) by {
        assert forall|r: u64| m0.contains_key(r) implies #[trigger] ks@.contains(r) by {
            assert(ks@.to_set().contains(r));
        }
    }
}

/// The bridge state of one context: its roots, the objects held weakly
/// (by address) after their root was made weak, which weak roots stand for
/// which held object, and the function roots created from templates.
pub struct BridgeState {
    pub roots: RootTable,
    pub ctx_key: usize,
    pub runtime_key: usize,
    pub weak_holds: HashMap<usize, JsValue>,
    /// A root id moved into `weak_holds` by `root_make_weak`, to its object key.
    pub weak_root_ids: HashMap<u64, usize>,
    pub function_roots: HashMap<u32, u64>,
    pub root_function_ids: HashMap<u64, u32>,
}

impl BridgeState {
    /// The root table is well formed and every weak hold is keyed by the
    /// address of the object it holds.
    pub open spec fn wf(&self) -> bool {
        &&& self.roots.wf()
        &&& forall|k: usize| #[trigger] self.weak_holds@.contains_key(k)
            ==> self.weak_holds@[k].object_key_spec() == Some(k)
    }

    /// The object a root id resolves to: its strong root, else the weak hold
    /// it was moved into.
    pub open spec fn object_for_root(&self, root_id: u64) -> Option<JsValue> {
        if self.roots@.contains_key(root_id) {
            Some(self.roots@[root_id].value)
        } else if self.weak_root_ids@.contains_key(root_id) && self.weak_holds@.contains_key(
            self.weak_root_ids@[root_id],
        ) {
            Some(self.weak_holds@[self.weak_root_ids@[root_id]])
        } else {
            None
        }
    }

    /// The cached root of the function `function_id`, while that root is live.
    pub open spec fn function_root_spec(&self, function_id: u32) -> Option<u64> {
        if self.function_roots@.contains_key(function_id) && self.roots@.contains_key(
            self.function_roots@[function_id],
        ) {
            Some(self.function_roots@[function_id])
        } else {
            None
        }
    }

    /// A fresh state for the context `ctx_key` of the runtime `runtime_key`.
    pub fn new(ctx_key: usize, runtime_key: usize) -> (s: BridgeState)
        ensures
            s.wf(),
            s.ctx_key == ctx_key,
            s.runtime_key == runtime_key,
            s.roots@ == Map::<u64, crate::roots::RootEntry>::empty(),
            s.roots.next_id_spec() == 1,
            s.weak_holds@ == Map::<usize, JsValue>::empty(),
            s.weak_root_ids@ == Map::<u64, usize>::empty(),
            s.function_roots@ == Map::<u32, u64>::empty(),
            s.root_function_ids@ == Map::<u64, u32>::empty(),
    {
        BridgeState {
            roots: RootTable::new(),
            ctx_key,
            runtime_key,
            weak_holds: HashMap::new(),
            weak_root_ids: HashMap::new(),
            function_roots: HashMap::new(),
            root_function_ids: HashMap::new(),
        }
    }

    /// The key of the context this state belongs to.
    pub fn ctx_ptr(&self) -> (k: usize)
        ensures
            k == self.ctx_key,
    {
        self.ctx_key
    }

    /// Resolves a root id to its object, including roots moved into weak holds.
    pub fn get_object_for_root(&self, root_id: u64) -> (r: Option<JsValue>)
        ensures
            r == self.object_for_root(root_id),
    {
        if let Some(value) = self.roots.get(root_id) {
            return Some(value);
        }
        let key = match self.weak_root_ids.get(&root_id) {
            Some(k) => *k,
            None => return None,
        };
        match self.weak_holds.get(&key) {
            Some(v) => Some(*v),
            None => None,
        }
    }

    /// Records that root `root_id` now stands for the object held weakly at `object_key`.
    pub fn record_weak_root(&mut self, root_id: u64, object_key: usize)
        ensures
            final(self).weak_root_ids@ == old(self).weak_root_ids@.insert(root_id, object_key),
            final(self).roots == old(self).roots,
            final(self).weak_holds@ == old(self).weak_holds@,
            final(self).function_roots@ == old(self).function_roots@,
            final(self).root_function_ids@ == old(self).root_function_ids@,
            final(self).ctx_key == old(self).ctx_key,
            final(self).runtime_key == old(self).runtime_key,
    {
        self.weak_root_ids.insert(root_id, object_key);
    }

    /// Forgets every weak root that stands for the object at `object_key`.
    pub fn forget_weak_roots_for_key(&mut self, object_key: usize)
        ensures
            final(self).weak_root_ids@ == without_value(old(self).weak_root_ids@, object_key),
            final(self).roots == old(self).roots,
            final(self).weak_holds@ == old(self).weak_holds@,
            final(self).function_roots@ == old(self).function_roots@,
            final(self).root_function_ids@ == old(self).root_function_ids@,
            final(self).ctx_key == old(self).ctx_key,
            final(self).runtime_key == old(self).runtime_key,
    {
        remove_entries_with_value(&mut self.weak_root_ids, object_key);
    }

    /// Holds `value` weakly under its object key, forgetting the weak roots
    /// that stood for an earlier hold of that key.
    pub fn insert_weak_hold(&mut self, key: usize, value: JsValue)
        ensures
            final(self).weak_holds@ == old(self).weak_holds@.insert(key, value),
            final(self).weak_root_ids@ == without_value(old(self).weak_root_ids@, key),
            final(self).roots == old(self).roots,
            final(self).function_roots@ == old(self).function_roots@,
            final(self).root_function_ids@ == old(self).root_function_ids@,
            final(self).ctx_key == old(self).ctx_key,
            final(self).runtime_key == old(self).runtime_key,
    {
        self.forget_weak_roots_for_key(key);
        self.weak_holds.insert(key, value);
    }

    /// Takes the value held weakly at `key`, forgetting the weak roots that
    /// stood for it.
    pub fn take_weak_hold(&mut self, key: usize) -> (v: Option<JsValue>)
        ensures
            v == (if old(self).weak_holds@.contains_key(key) {
                Some(old(self).weak_holds@[key])
            } else {
                None::<JsValue>
            }),
            final(self).weak_holds@ == old(self).weak_holds@.remove(key),
            final(self).weak_root_ids@ == without_value(old(self).weak_root_ids@, key),
            final(self).roots == old(self).roots,
            final(self).function_roots@ == old(self).function_roots@,
            final(self).root_function_ids@ == old(self).root_function_ids@,
            final(self).ctx_key == old(self).ctx_key,
            final(self).runtime_key == old(self).runtime_key,
    {
        self.forget_weak_roots_for_key(key);
        self.weak_holds.remove(&key)
    }

    /// The release step of a teardown pass: forgets every function root and
    /// removes every root. Returns the counted values, which the caller must
    /// release, in the order the root table walked them. Weak holds stay.
    pub fn release_roots(&mut self) -> (released: Vec<JsValue>)
        requires
            old(self).wf(),
        ensures
            final(self).wf(),
            final(self).roots@ == Map::<u64, crate::roots::RootEntry>::empty(),
            final(self).roots.next_id_spec() == old(self).roots.next_id_spec(),
            final(self).function_roots@ == Map::<u32, u64>::empty(),
            final(self).root_function_ids@ == Map::<u64, u32>::empty(),
            exists|ks: Seq<u64>|
                #![trigger crate::roots::counted_values(old(self).roots@, ks)]
                ks.no_duplicates() && ks.to_set() == old(self).roots@.dom() && released@
                    == crate::roots::counted_values(old(self).roots@, ks),
            final(self).weak_holds@ == old(self).weak_holds@,
            final(self).weak_root_ids@ == old(self).weak_root_ids@,
            final(self).ctx_key == old(self).ctx_key,
            final(self).runtime_key == old(self).runtime_key,
    {
        self.function_roots.clear();
        self.root_function_ids.clear();
        self.roots.clear()
    }

    /// The object keys of the weak holds, each once.
    pub fn weak_hold_keys(&self) -> (ks: Vec<usize>)
        ensures
            ks@.no_duplicates(),
            ks@.to_set() == self.weak_holds@.dom(),
    {
        keys_of(&self.weak_holds)
    }

    /// Empties the weak holds and the weak roots. Returns the held values,
    /// which the caller must release, in the order the table walked them.
    pub fn drain_weak_hold_values(&mut self) -> (released: Vec<JsValue>)
        ensures
            final(self).weak_holds@ == Map::<usize, JsValue>::empty(),
            final(self).weak_root_ids@ == Map::<u64, usize>::empty(),
            exists|ks: Seq<usize>|
                #![trigger values_along(old(self).weak_holds@, ks)]
                ks.no_duplicates() && ks.to_set() == old(self).weak_holds@.dom() && released@
                    == values_along(old(self).weak_holds@, ks),
            released@.len() == old(self).weak_holds@.len(),
            forall|k: usize| #[trigger] old(self).weak_holds@.contains_key(k) ==> released@.contains(
                old(self).weak_holds@[k],
            ),
            final(self).roots == old(self).roots,
            final(self).function_roots@ == old(self).function_roots@,
            final(self).root_function_ids@ == old(self).root_function_ids@,
            final(self).ctx_key == old(self).ctx_key,
            final(self).runtime_key == old(self).runtime_key,
    {
        self.weak_root_ids.clear();
        let ghost m = self.weak_holds@;
        let ks = keys_of(&self.weak_holds);
        let mut released: Vec<JsValue> = Vec::new();
        let mut i: usize = 0;
        while i < ks.len()
            invariant
                0 <= i <= ks.len(),
                ks@.to_set() == m.dom(),
                self.weak_holds@ == m,
                released@ == values_along(m, ks@.take(i as int)),
            decreases ks.len() - i,
        {
            let k = ks[i];
            assert(ks@.to_set().contains(k));
            let v = *self.weak_holds.get(&k).unwrap();
            released.push(v);
            assert(values_along(m, ks@.take(i as int + 1)) =~= values_along(m, ks@.take(i as int)).push(v));
            i = i + 1;
        }
        assert(ks@.take(ks@.len() as int) == ks@);
        assert(released@ == values_along(m, ks@));
        assert(ks@.no_duplicates());
        proof {
            assert(m == old(self).weak_holds@);
            ks@.unique_seq_to_set();
            assert forall|k: usize| #[trigger] m.contains_key(k) implies released@.contains(m[k]) by {
                assert(ks@.to_set().contains(k));
                let i = choose|i: int| 0 <= i < ks@.len() && ks@[i] == k;
                assert(released@[i] == m[k]);
            }
        }
        self.weak_holds.clear();
        released
    }

    /// Lets go of the weak holds whose object no root holds any more and
    /// that have a weak callback registered in `tables`. Returns the values
    /// let go, which the caller must release, in the order they were met.
    pub fn process_weak_holds(&mut self, tables: &ContextTables) -> (released: Vec<JsValue>)
        ensures
            final(self).weak_holds@ == Map::new(
                |k: usize| old(self).weak_holds@.contains_key(k) && !collectable(
                    old(self).roots@, old(self).weak_holds@, tables.weak_callbacks@, k),
                |k: usize| old(self).weak_holds@[k],
            ),
            final(self).weak_root_ids@ == Map::new(
                |r: u64| old(self).weak_root_ids@.contains_key(r) && !collectable(
                    old(self).roots@, old(self).weak_holds@, tables.weak_callbacks@,
                    old(self).weak_root_ids@[r]),
                |r: u64| old(self).weak_root_ids@[r],
            ),
            exists|ks: Seq<usize>|
                #![trigger collected_keys(old(self).roots@, old(self).weak_holds@, tables.weak_callbacks@, ks)]
                ks.no_duplicates() && ks.to_set() == old(self).weak_holds@.dom() && released@
                    == values_along(
                    old(self).weak_holds@,
                    collected_keys(old(self).roots@, old(self).weak_holds@, tables.weak_callbacks@, ks),
                ),
            forall|k: usize| #[trigger] old(self).weak_holds@.contains_key(k) ==> (final(self).weak_holds@.contains_key(k)
                <==> (!tables.weak_callbacks@.contains_key(k) || exists|id: u64|
                #[trigger] old(self).roots@.contains_key(id) && old(self).roots@[id].value.object_key_spec() == Some(k))),
            forall|k: usize| #[trigger] old(self).weak_holds@.contains_key(k) && !final(self).weak_holds@.contains_key(k)
                ==> released@.contains(old(self).weak_holds@[k]),
            final(self).roots == old(self).roots,
            final(self).function_roots@ == old(self).function_roots@,
            final(self).root_function_ids@ == old(self).root_function_ids@,
            final(self).ctx_key == old(self).ctx_key,
            final(self).runtime_key == old(self).runtime_key,
    {
        let ghost h0 = self.weak_holds@;
        let ghost w0 = self.weak_root_ids@;
        let ghost pred = |k: usize| collectable(self.roots@, h0, tables.weak_callbacks@, k);
        let ks = self.weak_hold_keys();
        let mut released: Vec<JsValue> = Vec::new();
        let mut i: usize = 0;
        while i < ks.len()
            invariant
                0 <= i <= ks.len(),
                ks@.to_set() == h0.dom(),
                ks@.no_duplicates(),
                pred == (|k: usize| collectable(self.roots@, h0, tables.weak_callbacks@, k)),
                self.roots == old(self).roots,
                h0 == old(self).weak_holds@,
                w0 == old(self).weak_root_ids@,
                self.function_roots@ == old(self).function_roots@,
                self.root_function_ids@ == old(self).root_function_ids@,
                self.ctx_key == old(self).ctx_key,
                self.runtime_key == old(self).runtime_key,
                self.weak_holds@ == Map::new(
                    |k: usize| h0.contains_key(k) && !(ks@.take(i as int).contains(k) && pred(k)),
                    |k: usize| h0[k],
                ),
                self.weak_root_ids@ == Map::new(
                    |r: u64| w0.contains_key(r) && !(ks@.take(i as int).contains(w0[r]) && pred(w0[r])),
                    |r: u64| w0[r],
                ),
                released@ == values_along(h0, collected_keys(self.roots@, h0, tables.weak_callbacks@, ks@.take(i as int))),
            decreases ks.len() - i,
        {
            let key = ks[i];
            assert(ks@.to_set().contains(key));
            let ghost done = ks@.take(i as int);
            let ghost next = ks@.take(i as int + 1);
            assert(next == done.push(key));
            assert(next.drop_last() == done);
            assert(!done.contains(key)) by {
                if done.contains(key) {
                    let j = choose|j: int| 0 <= j < i && done[j] == key;
                    assert(ks@[j] == ks@[i as int]);
                }
            }
            assert forall|q: usize| #[trigger] next.contains(q) <==> (done.contains(q) || q == key) by {
                if next.contains(q) {
                    let j = choose|j: int| 0 <= j < next.len() && next[j] == q;
                    if j < i {
                        assert(done[j] == q);
                    }
                }
                if q == key {
                    assert(next[i as int] == key);
                }
                if done.contains(q) {
                    let j = choose|j: int| 0 <= j < i && done[j] == q;
                    assert(next[j] == q);
                }
            }
            let rooted = self.roots.find_id_by_ptr(key);
            let has_weak = tables.weak_callbacks.contains_key(&key);
            if rooted.is_some() || !has_weak {
                assert(!pred(key));
                assert(collected_keys(self.roots@, h0, tables.weak_callbacks@, next) == collected_keys(self.roots@, h0, tables.weak_callbacks@, done));
                assert(self.weak_holds@ =~= Map::new(
                    |k: usize| h0.contains_key(k) && !(next.contains(k) && pred(k)),
                    |k: usize| h0[k],
                ));
                assert(self.weak_root_ids@ =~= Map::new(
                    |r: u64| w0.contains_key(r) && !(next.contains(w0[r]) && pred(w0[r])),
                    |r: u64| w0[r],
                ));
            } else {
                assert(!rooted_object(self.roots@, key));
                assert(pred(key));
                let ghost wh = self.weak_holds@;
                let ghost wr = self.weak_root_ids@;
                assert(wh.contains_key(key));
                let taken = self.take_weak_hold(key);
                let v = taken.unwrap();
                released.push(v);
                assert(collected_keys(self.roots@, h0, tables.weak_callbacks@, next) == collected_keys(self.roots@, h0, tables.weak_callbacks@, done).push(key));
                assert(values_along(h0, collected_keys(self.roots@, h0, tables.weak_callbacks@, next)) =~= values_along(h0, collected_keys(self.roots@, h0, tables.weak_callbacks@, done)).push(v));
                assert(self.weak_holds@ =~= Map::new(
                    |k: usize| h0.contains_key(k) && !(next.contains(k) && pred(k)),
                    |k: usize| h0[k],
                ));
                assert(self.weak_root_ids@ =~= Map::new(
                    |r: u64| w0.contains_key(r) && !(next.contains(w0[r]) && pred(w0[r])),
                    |r: u64| w0[r],
                ));
            }
            i = i + 1;
        }
        let ghost all = ks@.take(ks@.len() as int);
        assert(all == ks@);
        assert forall|k: usize| h0.contains_key(k) implies #[trigger] ks@.contains(k) by {
            assert(ks@.to_set().contains(k));
        }
        assert(self.weak_holds@ =~= Map::new(
            |k: usize| h0.contains_key(k) && !collectable(self.roots@, h0, tables.weak_callbacks@, k),
            |k: usize| h0[k],
        ));
        assert(self.weak_root_ids@ =~= Map::new(
            |r: u64| w0.contains_key(r) && !collectable(self.roots@, h0, tables.weak_callbacks@, w0[r]),
            |r: u64| w0[r],
        ));
        assert(released@ == values_along(h0, collected_keys(self.roots@, h0, tables.weak_callbacks@, ks@)));
        proof {
            lemma_collected_keys_are_the_collectable(self.roots@, h0, tables.weak_callbacks@, ks@);
            let ck = collected_keys(self.roots@, h0, tables.weak_callbacks@, ks@);
            assert forall|k: usize| #[trigger] h0.contains_key(k) && !self.weak_holds@.contains_key(k)
                implies released@.contains(h0[k]) by {
                assert(collectable(self.roots@, h0, tables.weak_callbacks@, k));
                assert(ks@.contains(k));
                let j = choose|j: int| 0 <= j < ck.len() && ck[j] == k;
                assert(released@[j] == h0[k]);
            }
        }
        released
    }

    /// The root of the function cached for `function_id`, while that root is live.
    pub fn function_root_for_id(&self, function_id: u32) -> (r: Option<u64>)
        ensures
            r == self.function_root_spec(function_id),
    {
        match self.function_roots.get(&function_id) {
            Some(root) => if self.roots.contains(*root) {
                Some(*root)
            } else {
                None
            },
            None => None,
        }
    }

    /// The function id that root `root` was created for, if any.
    pub fn function_id_for_root(&self, root: u64) -> (r: Option<u32>)
        ensures
            r == (if self.root_function_ids@.contains_key(root) {
                Some(self.root_function_ids@[root])
            } else {
                None::<u32>
            }),
    {
        match self.root_function_ids.get(&root) {
            Some(f) => Some(*f),
            None => None,
        }
    }

    /// Duplicates root `id`. A duplicate of a function root becomes the
    /// function's cached root and remembers the function id.
    pub fn dup_root(&mut self, id: u64) -> (r: Option<u64>)
        requires
            old(self).wf(),
            old(self).roots.can_insert(),
        ensures
            final(self).wf(),
            final(self).weak_holds@ == old(self).weak_holds@,
            final(self).weak_root_ids@ == old(self).weak_root_ids@,
            final(self).ctx_key == old(self).ctx_key,
            final(self).runtime_key == old(self).runtime_key,
            match r {
                Some(new_id) => {
                    &&& old(self).roots@.contains_key(id)
                    &&& new_id == old(self).roots.next_id_spec()
                    &&& new_id != 0
                    &&& !old(self).roots@.contains_key(new_id)
                    &&& final(self).roots@ == old(self).roots@.insert(new_id, old(self).roots@[id])
                    &&& final(self).roots.next_id_spec() == old(self).roots.next_id_spec() + 1
                    &&& if old(self).root_function_ids@.contains_key(id) {
                        let f = old(self).root_function_ids@[id];
                        &&& final(self).root_function_ids@ == old(self).root_function_ids@.insert(new_id, f)
                        &&& final(self).function_roots@ == old(self).function_roots@.insert(f, new_id)
                    } else {
                        &&& final(self).root_function_ids@ == old(self).root_function_ids@
                        &&& final(self).function_roots@ == old(self).function_roots@
                    }
                },
                None => {
                    &&& !old(self).roots@.contains_key(id)
                    &&& final(self).roots@ == old(self).roots@
                    &&& final(self).roots.next_id_spec() == old(self).roots.next_id_spec()
                    &&& final(self).root_function_ids@ == old(self).root_function_ids@
                    &&& final(self).function_roots@ == old(self).function_roots@
                },
            },
    {
        match self.roots.dup(id) {
            Some(new_id) => {
                let f = match self.root_function_ids.get(&id) {
                    Some(f) => Some(*f),
                    None => None,
                };
                if let Some(function_id) = f {
                    self.root_function_ids.insert(new_id, function_id);
                    self.function_roots.insert(function_id, new_id);
                }
                Some(new_id)
            },
            None => None,
        }
    }

    /// Drops root `id`; when it was a function root the function forgets its
    /// cached root. Returns the value the caller must release, if any.
    pub fn drop_root(&mut self, id: u64) -> (released: Option<JsValue>)
        requires
            old(self).wf(),
        ensures
            final(self).wf(),
            final(self).roots@ == old(self).roots@.remove(id),
            final(self).roots.next_id_spec() == old(self).roots.next_id_spec(),
            released == (if old(self).roots@.contains_key(id) && !old(self).roots@[id].immortal {
                Some(old(self).roots@[id].value)
            } else {
                None::<JsValue>
            }),
            final(self).root_function_ids@ == old(self).root_function_ids@.remove(id),
            final(self).function_roots@ == (if old(self).root_function_ids@.contains_key(id) {
                old(self).function_roots@.remove(old(self).root_function_ids@[id])
            } else {
                old(self).function_roots@
            }),
            final(self).weak_holds@ == old(self).weak_holds@,
            final(self).weak_root_ids@ == old(self).weak_root_ids@,
            final(self).ctx_key == old(self).ctx_key,
            final(self).runtime_key == old(self).runtime_key,
    {
        if let Some(function_id) = self.root_function_ids.remove(&id) {
            self.function_roots.remove(&function_id);
        }
        self.roots.drop_root(id)
    }

    /// Makes root `id` weak: its value leaves the roots. An object is then
    /// held weakly under its address and `id` keeps resolving to it; any
    /// other value is handed back for the caller to release. `Error` when
    /// `id` names no root.
    pub fn make_weak(&mut self, id: u64) -> (r: (RasterV8Status, Option<JsValue>))
        requires
            old(self).wf(),
        ensures
            final(self).wf(),
            final(self).roots@ == old(self).roots@.remove(id),
            final(self).roots.next_id_spec() == old(self).roots.next_id_spec(),
            final(self).function_roots@ == old(self).function_roots@,
            final(self).root_function_ids@ == old(self).root_function_ids@,
            final(self).ctx_key == old(self).ctx_key,
            final(self).runtime_key == old(self).runtime_key,
            make_weak_outcome(*old(self), *final(self), id, r),
    {
        let value = match self.roots.detach_root(id) {
            Some(v) => v,
            None => return (RasterV8Status::Error, None),
        };
        let key = match object_ptr_key(value) {
            Some(k) => k,
            None => return (RasterV8Status::Success, Some(value)),
        };
        self.insert_weak_hold(key, value);
        self.record_weak_root(id, key);
        (RasterV8Status::Success, None)
    }

    /// Roots a function created for `function_id` (the caller hands over a
    /// reference to `func`) and caches it as that function's root.
    pub fn register_function_root(&mut self, function_id: u32, func: JsValue) -> (root: u64)
        requires
            old(self).wf(),
            old(self).roots.can_insert(),
        ensures
            final(self).wf(),
            root == old(self).roots.next_id_spec(),
            root != 0,
            !old(self).roots@.contains_key(root),
            final(self).roots@ == old(self).roots@.insert(root, crate::roots::RootEntry { value: func, immortal: false }),
            final(self).roots.next_id_spec() == old(self).roots.next_id_spec() + 1,
            final(self).function_roots@ == old(self).function_roots@.insert(function_id, root),
            final(self).root_function_ids@ == old(self).root_function_ids@.insert(root, function_id),
            final(self).weak_holds@ == old(self).weak_holds@,
            final(self).weak_root_ids@ == old(self).weak_root_ids@,
            final(self).ctx_key == old(self).ctx_key,
            final(self).runtime_key == old(self).runtime_key,
    {
        let root = self.roots.insert_owned(func);
        self.function_roots.insert(function_id, root);
        self.root_function_ids.insert(root, function_id);
        root
    }

    /// The live cached root of the function for `function_id`, if any; the
    /// root is (re)marked as standing for that function.
    pub fn cached_function_root(&mut self, function_id: u32) -> (r: Option<u64>)
        requires
            old(self).wf(),
        ensures
            final(self).wf(),
            r == old(self).function_root_spec(function_id),
            final(self).root_function_ids@ == (match r {
                Some(root) => old(self).root_function_ids@.insert(root, function_id),
                None => old(self).root_function_ids@,
            }),
            final(self).roots == old(self).roots,
            final(self).function_roots@ == old(self).function_roots@,
            final(self).weak_holds@ == old(self).weak_holds@,
            final(self).weak_root_ids@ == old(self).weak_root_ids@,
            final(self).ctx_key == old(self).ctx_key,
            final(self).runtime_key == old(self).runtime_key,
    {
        let cached = self.function_root_for_id(function_id);
        if let Some(root) = cached {
            self.root_function_ids.insert(root, function_id);
        }
        cached
    }

    /// The roots that may hold the constructor called through `func_root`,
    /// in the order they are to be tried: `func_root` itself when live, then
    /// the live cached root of the function `func_root` was created for.
    pub fn constructor_candidates(&self, func_root: u64) -> (c: Vec<(u64, JsValue)>)
        ensures
            c@ == ({
                let first = if self.roots@.contains_key(func_root) {
                    seq![(func_root, self.roots@[func_root].value)]
                } else {
                    Seq::<(u64, JsValue)>::empty()
                };
                let second = if self.root_function_ids@.contains_key(func_root) && self.function_roots@.contains_key(
                    self.root_function_ids@[func_root],
                ) && self.roots@.contains_key(self.function_roots@[self.root_function_ids@[func_root]]) {
                    let root = self.function_roots@[self.root_function_ids@[func_root]];
                    seq![(root, self.roots@[root].value)]
                } else {
                    Seq::<(u64, JsValue)>::empty()
                };
                first + second
            }),
    {
        let mut c: Vec<(u64, JsValue)> = Vec::new();
        if let Some(func) = self.roots.get(func_root) {
            c.push((func_root, func));
        }
        let ghost first = c@;
        if let Some(function_id) = self.root_function_ids.get(&func_root) {
            if let Some(root) = self.function_roots.get(function_id) {
                if let Some(func) = self.roots.get(*root) {
                    c.push((*root, func));
                }
            }
        }
        assert(c@ =~= first + (c@.skip(first.len() as int)));
        c
    }

    /// Roots, weak holds and function roots still owned by this state.
    pub fn residual_root_count(&self) -> (n: usize)
        requires
            self.function_roots@.len() + self.weak_holds@.len() + self.roots@.len() <= usize::MAX,
        ensures
            n == self.function_roots@.len() + self.weak_holds@.len() + self.roots@.len(),
    {
        self.function_roots.len() + self.weak_holds.len() + self.roots.len()
    }

    /// The least root id of the object at address `ptr`; `Error` for a null
    /// address or an object no root holds.
    pub fn root_id_for_js_object(&self, ptr: usize) -> (r: Result<u64, RasterV8Status>)
        ensures
            ptr == 0 ==> r == Err::<u64, RasterV8Status>(RasterV8Status::Error),
            ptr != 0 ==> match r {
                Ok(id) => crate::roots::is_least_root(self.roots@, ptr, id),
                Err(e) => e == RasterV8Status::Error && !rooted_object(self.roots@, ptr),
            },
    {
        if ptr == 0 {
            return Err(RasterV8Status::Error);
        }
        match self.roots.find_id_by_ptr(ptr) {
            Some(id) => Ok(id),
            None => Err(RasterV8Status::Error),
        }
    }

    /// The address of the object root `root` resolves to (weak roots
    /// included); `Error` when it resolves to nothing or to a non-object.
    pub fn object_ptr_for_root(&self, root: u64) -> (r: Result<usize, RasterV8Status>)
        ensures
            r == (match self.object_for_root(root) {
                Some(v) => match v.object_key_spec() {
                    Some(k) => Ok::<usize, RasterV8Status>(k),
                    None => Err(RasterV8Status::Error),
                },
                None => Err(RasterV8Status::Error),
            }),
    {
        let obj = match self.get_object_for_root(root) {
            Some(o) => o,
            None => return Err(RasterV8Status::Error),
        };
        match object_ptr_key(obj) {
            Some(k) => Ok(k),
            None => Err(RasterV8Status::Error),
        }
    }

    /// A strong root for the object at address `ptr`: its existing root,
    /// else its weak hold moved back into the roots, else a new root for it.
    /// `Error` for a null address.
    pub fn root_restrong_from_object_ptr(&mut self, ptr: usize) -> (r: Result<Restrong, RasterV8Status>)
        requires
            old(self).wf(),
            old(self).roots.can_insert(),
        ensures
            final(self).wf(),
            final(self).function_roots@ == old(self).function_roots@,
            final(self).root_function_ids@ == old(self).root_function_ids@,
            final(self).ctx_key == old(self).ctx_key,
            final(self).runtime_key == old(self).runtime_key,
            ptr == 0 ==> r == Err::<Restrong, RasterV8Status>(RasterV8Status::Error) && final(self).roots
                == old(self).roots && final(self).weak_holds@ == old(self).weak_holds@
                && final(self).weak_root_ids@ == old(self).weak_root_ids@,
            ptr != 0 ==> restrong_outcome(*old(self), *final(self), ptr, r),
    {
        if ptr == 0 {
            return Err(RasterV8Status::Error);
        }
        if let Some(id) = self.roots.find_id_by_ptr(ptr) {
            return Ok(Restrong::Existing(id));
        }
        if let Some(value) = self.take_weak_hold(ptr) {
            let id = self.roots.insert_owned(value);
            return Ok(Restrong::FromWeak(id));
        }
        assert(self.weak_holds@ =~= old(self).weak_holds@);
        let id = self.roots.insert_owned(JsValue::object(ptr));
        Ok(Restrong::Fresh(id))
    }

    /// A root for the object whose tagged address is `js_value_tag`: its
    /// existing root, else as `root_restrong_from_object_ptr`. `Error` for 0.
    pub fn root_from_js_value(&mut self, js_value_tag: u64) -> (r: Result<Restrong, RasterV8Status>)
        requires
            old(self).wf(),
            old(self).roots.can_insert(),
        ensures
            final(self).wf(),
            (js_value_tag == 0 || #[verifier::truncate] (js_value_tag as usize) == 0) ==> r == Err::<
                Restrong,
                RasterV8Status,
            >(RasterV8Status::Error),
            final(self).function_roots@ == old(self).function_roots@,
            final(self).root_function_ids@ == old(self).root_function_ids@,
            final(self).ctx_key == old(self).ctx_key,
            final(self).runtime_key == old(self).runtime_key,
            (js_value_tag == 0 || #[verifier::truncate] (js_value_tag as usize) == 0) ==> {
                &&& final(self).roots == old(self).roots
                &&& final(self).weak_holds@ == old(self).weak_holds@
                &&& final(self).weak_root_ids@ == old(self).weak_root_ids@
            },
            (js_value_tag != 0 && #[verifier::truncate] (js_value_tag as usize) != 0) ==> restrong_outcome(
                *old(self),
                *final(self),
                #[verifier::truncate] (js_value_tag as usize),
                r,
            ),
    {
        if js_value_tag == 0 {
            return Err(RasterV8Status::Error);
        }
        let ptr = #[verifier::truncate] (js_value_tag as usize);
        self.root_restrong_from_object_ptr(ptr)
    }

    /// The values rooted under `ids`, in order; `Error` when one is not a root.
    pub fn lookup_all(&self, ids: &Vec<u64>) -> (r: Result<Vec<JsValue>, RasterV8Status>)
        ensures
            (forall|i: int| 0 <= i < ids@.len() ==> self.roots@.contains_key(#[trigger] ids@[i])) ==> (r matches Ok(vs)
                && vs@ == ids@.map_values(|id: u64| self.roots@[id].value)),
            !(forall|i: int| 0 <= i < ids@.len() ==> self.roots@.contains_key(#[trigger] ids@[i])) ==> r
                == Err::<Vec<JsValue>, RasterV8Status>(RasterV8Status::Error),
    {
        let mut vs: Vec<JsValue> = Vec::new();
        let mut i: usize = 0;
        while i < ids.len()
            invariant
                0 <= i <= ids.len(),
                forall|j: int| 0 <= j < i ==> self.roots@.contains_key(#[trigger] ids@[j]),
                vs@ == ids@.take(i as int).map_values(|id: u64| self.roots@[id].value),
            decreases ids.len() - i,
        {
            match self.roots.get(ids[i]) {
                Some(v) => {
                    vs.push(v);
                    assert(ids@.take(i as int + 1).map_values(|id: u64| self.roots@[id].value) =~= ids@.take(
                        i as int,
                    ).map_values(|id: u64| self.roots@[id].value).push(v));
                },
                None => return Err(RasterV8Status::Error),
            }
            i = i + 1;
        }
        assert(ids@.take(ids@.len() as int) == ids@);
        Ok(vs)
    }

    /// The function, receiver and arguments of a call through roots: the
    /// receiver is `None` (undefined) for root 0. `Error` when the function,
    /// a non-zero receiver or an argument is not a root.
    pub fn resolve_call(&self, func_root: u64, recv_root: u64, arg_roots: &Vec<u64>) -> (r: Result<
        (JsValue, Option<JsValue>, Vec<JsValue>),
        RasterV8Status,
    >)
        ensures
            ({
                let ok = self.roots@.contains_key(func_root) && (recv_root == 0 || self.roots@.contains_key(
                    recv_root,
                )) && (forall|i: int| 0 <= i < arg_roots@.len() ==> self.roots@.contains_key(#[trigger] arg_roots@[i]));
                &&& ok ==> (r matches Ok((f, recv, args)) && f == self.roots@[func_root].value && recv == (if recv_root
                    == 0 {
                    None::<JsValue>
                } else {
                    Some(self.roots@[recv_root].value)
                }) && args@ == arg_roots@.map_values(|id: u64| self.roots@[id].value))
                &&& !ok ==> r == Err::<(JsValue, Option<JsValue>, Vec<JsValue>), RasterV8Status>(RasterV8Status::Error)
            }),
    {
        let func = match self.roots.get(func_root) {
            Some(f) => f,
            None => return Err(RasterV8Status::Error),
        };
        let recv = if recv_root == 0 {
            None
        } else {
            match self.roots.get(recv_root) {
                Some(v) => Some(v),
                None => return Err(RasterV8Status::Error),
            }
        };
        let args = self.lookup_all(arg_roots)?;
        Ok((func, recv, args))
    }

    /// The values of those of `ids` that are live roots (0 names none), in
    /// order: the prototypes of installed templates, for instance.
    pub fn present_values(&self, ids: &Vec<u64>) -> (vs: Vec<JsValue>)
        ensures
            vs@ == present_values(self.roots@, ids@),
            forall|i: int| 0 <= i < ids@.len() && ids@[i] != 0 && self.roots@.contains_key(#[trigger] ids@[i])
                ==> vs@.contains(self.roots@[ids@[i]].value),
    {
        proof {
            lemma_present_values_are_the_live_ones(self.roots@, ids@);
        }
        let mut vs: Vec<JsValue> = Vec::new();
        let mut i: usize = 0;
        while i < ids.len()
            invariant
                0 <= i <= ids.len(),
                vs@ == present_values(self.roots@, ids@.take(i as int)),
            decreases ids.len() - i,
        {
            assert(ids@.take(i as int + 1).drop_last() == ids@.take(i as int));
            let id = ids[i];
            if id != 0 {
                if let Some(v) = self.roots.get(id) {
                    vs.push(v);
                }
            }
            i = i + 1;
        }
        assert(ids@.take(ids@.len() as int) == ids@);
        vs
    }

    /// The installed prototype rooted under `proto_root` (0 names none).
    pub fn installed_prototype(&self, proto_root: u64) -> (r: Option<JsValue>)
        ensures
            r == (if proto_root != 0 && self.roots@.contains_key(proto_root) {
                Some(self.roots@[proto_root].value)
            } else {
                None::<JsValue>
            }),
    {
        if proto_root != 0 {
            self.roots.get(proto_root)
        } else {
            None
        }
    }

    /// The new target of a construct call of `function_id`: the receiver
    /// when the engine passed the constructor as receiver, else the live
    /// cached function of `function_id`, else none.
    pub fn construct_new_target(&self, ctor_is_new_target: bool, function_id: u32) -> (r: NewTargetSource)
        ensures
            r == (if ctor_is_new_target {
                NewTargetSource::Receiver
            } else {
                match self.function_root_spec(function_id) {
                    Some(root) => NewTargetSource::Function(self.roots@[root].value),
                    None => NewTargetSource::Absent,
                }
            }),
    {
        if ctor_is_new_target {
            return NewTargetSource::Receiver;
        }
        match self.function_root_for_id(function_id) {
            Some(root) => match self.roots.get(root) {
                Some(func) => NewTargetSource::Function(func),
                None => NewTargetSource::Absent,
            },
            None => NewTargetSource::Absent,
        }
    }
}

/// The least root of `state` that holds the object at address `ptr`, if any.
pub fn root_id_for_ptr(state: &BridgeState, ptr: usize) -> (r: Option<u64>)
    ensures
        match r {
            Some(id) => crate::roots::is_least_root(state.roots@, ptr, id),
            None => !rooted_object(state.roots@, ptr),
        },
{
    state.roots.find_id_by_ptr(ptr)
}

} // verus!
