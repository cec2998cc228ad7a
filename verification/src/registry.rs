use std::collections::HashMap;
use vstd::prelude::*;

use crate::bridge_state::BridgeState;
use crate::maps::keys_of;
use crate::roots::RootEntry;
use crate::teardown::TeardownCounts;
use crate::value::JsValue;

verus! {

broadcast use vstd::std_specs::hash::group_hash_axioms;

/// Roots, weak holds and function roots a state still owns.
pub open spec fn state_residual(s: BridgeState) -> nat {
    s.function_roots@.len() + s.weak_holds@.len() + s.roots@.len()
}

/// The residual counts of the states of runtime `rt` met along `ks`.
pub open spec fn residual_along(m: Map<usize, BridgeState>, rt: usize, ks: Seq<usize>) -> nat
    decreases ks.len(),
{
    if ks.len() == 0 {
        0
    } else {
        residual_along(m, rt, ks.drop_last()) + if m[ks.last()].runtime_key == rt {
            state_residual(m[ks.last()])
        } else {
            0
        }
    }
}

/// `ks` lists the keys of `m`, each once.
pub open spec fn lists_keys(m: Map<usize, BridgeState>, ks: Seq<usize>) -> bool {
    ks.no_duplicates() && ks.to_set() == m.dom()
}

/// The residual count of all states of runtime `rt`.
pub open spec fn residual_total(m: Map<usize, BridgeState>, rt: usize) -> nat {
    residual_along(m, rt, choose|ks: Seq<usize>| lists_keys(m, ks))
}

/// Removing the element at `j` from `ks` takes its share out of the sum.
pub proof fn lemma_residual_remove(m: Map<usize, BridgeState>, rt: usize, ks: Seq<usize>, j: int)
    requires
        0 <= j < ks.len(),
    ensures
        residual_along(m, rt, ks) == residual_along(m, rt, ks.remove(j)) + if m[ks[j]].runtime_key == rt {
            state_residual(m[ks[j]])
        } else {
            0
        },
    decreases ks.len(),
{
    if j == ks.len() - 1 {
        assert(ks.remove(j) == ks.drop_last());
    } else {
        let last = ks.last();
        lemma_residual_remove(m, rt, ks.drop_last(), j);
        assert(ks.remove(j).drop_last() == ks.drop_last().remove(j));
        assert(ks.remove(j).last() == last);
    }
}

/// The sum does not depend on the order in which the keys are listed.
pub proof fn lemma_residual_order(m: Map<usize, BridgeState>, rt: usize, a: Seq<usize>, b: Seq<usize>)
    requires
        a.no_duplicates(),
        b.no_duplicates(),
        a.to_set() == b.to_set(),
    ensures
        residual_along(m, rt, a) == residual_along(m, rt, b),
    decreases a.len(),
{
    a.unique_seq_to_set();
    b.unique_seq_to_set();
    if a.len() == 0 {
        assert(b.len() == 0);
    } else {
        let x = a.last();
        assert(a.to_set().contains(x));
        assert(b.contains(x));
        let j = b.index_of(x);
        let a2 = a.drop_last();
        let b2 = b.remove(j);
        assert(a2.no_duplicates());
        assert(b2.no_duplicates()) by {
            assert forall|p: int, q: int| 0 <= p < q < b2.len() implies b2[p] != b2[q] by {
                let pp = if p < j { p } else { p + 1 };
                let qq = if q < j { q } else { q + 1 };
                assert(b2[p] == b[pp]);
                assert(b2[q] == b[qq]);
            }
        }
        assert(a2.to_set() =~= b2.to_set()) by {
            assert forall|y: usize| a2.to_set().contains(y) <==> b2.to_set().contains(y) by {
                if a2.contains(y) {
                    let p = choose|p: int| 0 <= p < a2.len() && a2[p] == y;
                    assert(a[p] == y);
                    assert(y != x);
                    assert(a.to_set().contains(y));
                    assert(b.contains(y));
                    let q = b.index_of(y);
                    assert(q != j);
                    let qq = if q < j { q } else { q - 1 };
                    assert(b2[qq] == y);
                }
                if b2.contains(y) {
                    let q = choose|q: int| 0 <= q < b2.len() && b2[q] == y;
                    let qq = if q < j { q } else { q + 1 };
                    assert(b[qq] == y);
                    assert(qq != j);
                    assert(y != x);
                    assert(b.to_set().contains(y));
                    assert(a.contains(y));
                    let p = a.index_of(y);
                    assert(p != a.len() - 1);
                    assert(a2[p] == y);
                }
            }
        }
        lemma_residual_order(m, rt, a2, b2);
        lemma_residual_remove(m, rt, b, j);
    }
}

/// Every finite set of keys can be listed, each key once.
pub proof fn lemma_set_listing(s: Set<usize>) -> (ks: Seq<usize>)
    requires
        s.finite(),
    ensures
        ks.no_duplicates(),
        ks.to_set() == s,
    decreases s.len(),
{
    if s.len() == 0 {
        assert(s =~= Set::<usize>::empty());
        let e = Seq::<usize>::empty();
        assert(e.to_set() =~= s);
        e
    } else {
        let x = s.choose();
        let rest = lemma_set_listing(s.remove(x));
        let ks = rest.push(x);
        assert(!rest.contains(x)) by {
            if rest.contains(x) {
                assert(rest.to_set().contains(x));
            }
        }
        assert(ks.no_duplicates()) by {
            assert forall|p: int, q: int| 0 <= p < q < ks.len() implies ks[p] != ks[q] by {
                if q == ks.len() - 1 {
                    assert(ks[p] == rest[p]);
                    assert(rest.contains(rest[p]));
                }
            }
        }
        assert(ks.to_set() =~= s) by {
            assert forall|y: usize| ks.to_set().contains(y) <==> s.contains(y) by {
                if ks.contains(y) {
                    let p = choose|p: int| 0 <= p < ks.len() && ks[p] == y;
                    if p < rest.len() {
                        assert(rest[p] == y);
                        assert(rest.to_set().contains(y));
                    }
                }
                if s.contains(y) {
                    if y == x {
                        assert(ks[ks.len() - 1] == x);
                    } else {
                        assert(s.remove(x).contains(y));
                        assert(rest.to_set().contains(y));
                        let p = choose|p: int| 0 <= p < rest.len() && rest[p] == y;
                        assert(ks[p] == y);
                    }
                }
            }
        }
        ks
    }
}

/// The keys of a map with a finite domain can be listed.
pub proof fn lemma_lists_keys_exist(m: Map<usize, BridgeState>)
    requires
        m.dom().finite(),
    ensures
        exists|ks: Seq<usize>| lists_keys(m, ks),
{
    let ks = lemma_set_listing(m.dom());
    assert(lists_keys(m, ks));
}

/// Removing a listed key from the map and from the listing keeps a listing.
pub proof fn lemma_remove_lists_keys(m: Map<usize, BridgeState>, ks: Seq<usize>, j: int)
    requires
        lists_keys(m, ks),
        0 <= j < ks.len(),
    ensures
        lists_keys(m.remove(ks[j]), ks.remove(j)),
{
    let k = ks[j];
    let rest = ks.remove(j);
    assert(rest.no_duplicates()) by {
        assert forall|p: int, q: int| 0 <= p < q < rest.len() implies rest[p] != rest[q] by {
            let pp = if p < j { p } else { p + 1 };
            let qq = if q < j { q } else { q + 1 };
            assert(rest[p] == ks[pp]);
            assert(rest[q] == ks[qq]);
        }
    }
    assert(rest.to_set() =~= m.remove(k).dom()) by {
        assert forall|y: usize| rest.to_set().contains(y) <==> m.remove(k).dom().contains(y) by {
            if rest.contains(y) {
                let p = choose|p: int| 0 <= p < rest.len() && rest[p] == y;
                let pp = if p < j { p } else { p + 1 };
                assert(ks[pp] == y);
                assert(pp != j);
                assert(ks.to_set().contains(y));
            }
            if m.remove(k).dom().contains(y) {
                assert(ks.to_set().contains(y));
                let p = choose|p: int| 0 <= p < ks.len() && ks[p] == y;
                assert(p != j);
                let pp = if p < j { p } else { p - 1 };
                assert(rest[pp] == y);
            }
        }
    }
}

/// Without states the residual count is zero.
pub proof fn lemma_residual_total_empty(m: Map<usize, BridgeState>, rt: usize)
    requires
        m.dom().is_empty(),
    ensures
        residual_total(m, rt) == 0,
{
    let e = Seq::<usize>::empty();
    assert(e.to_set() =~= m.dom());
    assert(lists_keys(m, e));
    let ks = choose|c: Seq<usize>| lists_keys(m, c);
    assert(lists_keys(m, ks));
    if ks.len() > 0 {
        assert(ks.to_set().contains(ks[0]));
    }
}

/// The residual count of a runtime whose thread holds a single bridge
/// state is that state's function roots, weak holds and roots, counted one
/// each, when the state belongs to the runtime, and nothing otherwise.
pub proof fn lemma_residual_of_single_state(k: usize, s: BridgeState, rt: usize)
    ensures
        residual_total(map![k => s], rt) == (if s.runtime_key == rt {
            s.function_roots@.len() + s.weak_holds@.len() + s.roots@.len()
        } else {
            0
        }),
{
    let m = map![k => s];
    let one = seq![k];
    assert(one[0] == k);
    assert forall|x: usize| one.to_set().contains(x) <==> m.dom().contains(x) by {
        if x == k {
            assert(one.contains(x));
        }
    }
    assert(one.to_set() =~= m.dom());
    assert(one.no_duplicates());
    assert(lists_keys(m, one));
    let ks = choose|c: Seq<usize>| lists_keys(m, c);
    assert(lists_keys(m, ks));
    lemma_residual_order(m, rt, ks, one);
    assert(one.drop_last() =~= Seq::<usize>::empty());
    assert(one.last() == k);
    assert(m[k] == s);
    assert(residual_along(m, rt, Seq::<usize>::empty()) == 0);
    assert(residual_along(m, rt, one) == residual_along(m, rt, one.drop_last()) + if m[one.last()].runtime_key
        == rt {
        state_residual(m[one.last()])
    } else {
        0
    });
    assert(residual_total(m, rt) == residual_along(m, rt, ks));
}

/// Making the root of an object weak moves the object from the roots into
/// the weak holds: while the object was not held weakly before, what the
/// state still owns, and so the residual count of its runtime, is unchanged.
pub proof fn lemma_make_weak_keeps_residual(
    s0: BridgeState,
    s1: BridgeState,
    id: u64,
    key: usize,
    r: (crate::status::RasterV8Status, Option<JsValue>),
)
    requires
        s0.roots@.contains_key(id),
        s0.roots@[id].value.object_key_spec() == Some(key),
        !s0.weak_holds@.contains_key(key),
        s1.roots@ == s0.roots@.remove(id),
        s1.function_roots@ == s0.function_roots@,
        crate::bridge_state::make_weak_outcome(s0, s1, id, r),
    ensures
        state_residual(s1) == state_residual(s0),
        s1.function_roots@.len() + s1.weak_holds@.len() + s1.roots@.len() == s0.function_roots@.len()
            + s0.weak_holds@.len() + s0.roots@.len(),
{
    s0.roots.lemma_finite();
    assert(s0.weak_holds@.dom().finite());
}

/// `post` is `pre` after the bridge state of `ctx` was removed: the
/// state is gone, every other context keeps its own, and the active context
/// is cleared only when it was `ctx` and `ctx` had a state.
pub open spec fn context_removed(pre: BridgeRegistry, post: BridgeRegistry, ctx: usize) -> bool {
    &&& post.states@ == pre.states@.remove(ctx)
    &&& post.active == (if pre.states@.contains_key(ctx) && pre.active == Some(ctx) {
        None::<usize>
    } else {
        pre.active
    })
}

/// All bridge states of a thread, by context key, and the context that
/// bridge calls without a context of their own act on.
pub struct BridgeRegistry {
    pub states: HashMap<usize, BridgeState>,
    pub active: Option<usize>,
}

impl BridgeRegistry {
    /// No state and no active context.
    pub fn new() -> (r: BridgeRegistry)
        ensures
            r.states@ == Map::<usize, BridgeState>::empty(),
            r.active == None::<usize>,
    {
        BridgeRegistry { states: HashMap::new(), active: None }
    }

    /// Makes `ctx_key` the active context.
    pub fn set_active_bridge_context(&mut self, ctx_key: usize)
        ensures
            final(self).active == Some(ctx_key),
            final(self).states@ == old(self).states@,
    {
        self.active = Some(ctx_key);
    }

    /// Leaves no context active.
    pub fn clear_active_bridge_context(&mut self)
        ensures
            final(self).active == None::<usize>,
            final(self).states@ == old(self).states@,
    {
        self.active = None;
    }

    /// The context that calls without a context act on: the active one,
    /// else some context that has a bridge state.
    pub fn active_ctx_key(&self) -> (k: usize)
        requires
            self.active is Some || !self.states@.is_empty(),
        ensures
            self.active matches Some(a) ==> k == a,
            self.active is None ==> self.states@.contains_key(k),
    {
        match self.active {
            Some(k) => k,
            None => {
                let ks = keys_of(&self.states);
                proof {
                    let k0 = self.states@.dom().choose();
                    assert(self.states@.dom().contains(k0));
                    assert(ks@.to_set().contains(k0));
                }
                assert(ks@.to_set().contains(ks@[0]));
                ks[0]
            },
        }
    }

    /// Whether `ctx_key` has a bridge state.
    pub fn has_bridge_for_ctx(&self, ctx_key: usize) -> (b: bool)
        ensures
            b == self.states@.contains_key(ctx_key),
    {
        self.states.contains_key(&ctx_key)
    }

    /// Gives `ctx_key` (of runtime `runtime_key`) a bridge state unless it
    /// has one, and makes it the active context.
    pub fn bind_bridge(&mut self, ctx_key: usize, runtime_key: usize)
        ensures
            final(self).active == Some(ctx_key),
            old(self).states@.contains_key(ctx_key) ==> final(self).states@ == old(self).states@,
            !old(self).states@.contains_key(ctx_key) ==> {
                &&& final(self).states@.dom() == old(self).states@.dom().insert(ctx_key)
                &&& forall|k: usize| k != ctx_key && #[trigger] old(self).states@.contains_key(k)
                    ==> final(self).states@[k] == old(self).states@[k]
                &&& final(self).states@[ctx_key].wf()
                &&& final(self).states@[ctx_key].ctx_key == ctx_key
                &&& final(self).states@[ctx_key].runtime_key == runtime_key
                &&& final(self).states@[ctx_key].roots@ == Map::<u64, crate::roots::RootEntry>::empty()
                &&& final(self).states@[ctx_key].roots.next_id_spec() == 1
                &&& final(self).states@[ctx_key].weak_root_ids@.is_empty()
                &&& final(self).states@[ctx_key].root_function_ids@.is_empty()
                &&& final(self).states@[ctx_key].weak_holds@.is_empty()
                &&& final(self).states@[ctx_key].function_roots@.is_empty()
            },
    {
        if !self.states.contains_key(&ctx_key) {
            let s = BridgeState::new(ctx_key, runtime_key);
            self.states.insert(ctx_key, s);
        }
        self.active = Some(ctx_key);
    }

    /// Removes the bridge state of `ctx_key` and hands it back; when there
    /// was one and its context was the active one, no context is active
    /// afterwards. A context without a state changes nothing.
    pub fn remove_context(&mut self, ctx_key: usize) -> (removed: Option<BridgeState>)
        ensures
            context_removed(*old(self), *final(self), ctx_key),
            removed == (if old(self).states@.contains_key(ctx_key) {
                Some(old(self).states@[ctx_key])
            } else {
                None::<BridgeState>
            }),
    {
        let removed = self.states.remove(&ctx_key);
        if removed.is_some() && self.active == Some(ctx_key) {
            self.active = None;
        }
        proof {
            if !old(self).states@.contains_key(ctx_key) {
                assert(self.states@ =~= old(self).states@);
            }
        }
        removed
    }

    /// Some context whose roots hold `root_id`, if any.
    pub fn context_for_root_id(&self, root_id: u64) -> (r: Option<usize>)
        ensures
            match r {
                Some(k) => self.states@.contains_key(k) && self.states@[k].roots@.contains_key(root_id),
                None => forall|k: usize| #[trigger] self.states@.contains_key(k)
                    ==> !self.states@[k].roots@.contains_key(root_id),
            },
    {
        let ks = keys_of(&self.states);
        let mut i: usize = 0;
        while i < ks.len()
            invariant
                0 <= i <= ks.len(),
                ks@.to_set() == self.states@.dom(),
                forall|j: int| 0 <= j < i ==> !(#[trigger] self.states@[ks@[j]]).roots@.contains_key(root_id),
            decreases ks.len() - i,
        {
            let k = ks[i];
            assert(ks@.to_set().contains(k));
            let s = self.states.get(&k).unwrap();
            if s.roots.contains(root_id) {
                return Some(k);
            }
            i = i + 1;
        }
        proof {
            assert forall|k: usize| #[trigger] self.states@.contains_key(k)
                implies !self.states@[k].roots@.contains_key(root_id) by {
                assert(ks@.to_set().contains(k));
                let j = ks@.index_of(k);
                assert(!self.states@[ks@[j]].roots@.contains_key(root_id));
            }
        }
        None
    }

    /// Roots, weak holds and function roots still owned by the states of
    /// the runtime `rt_key`, summed over its contexts.
    pub fn residual_root_count_for_runtime(&self, rt_key: usize) -> (n: usize)
        requires
            residual_total(self.states@, rt_key) <= usize::MAX,
        ensures
            n == residual_total(self.states@, rt_key),
    {
        let ks = keys_of(&self.states);
        let ghost chosen = choose|c: Seq<usize>| lists_keys(self.states@, c);
        proof {
            assert(lists_keys(self.states@, ks@));
            lemma_residual_order(self.states@, rt_key, ks@, chosen);
        }
        let mut total: usize = 0;
        let mut i: usize = 0;
        while i < ks.len()
            invariant
                0 <= i <= ks.len(),
                ks@.to_set() == self.states@.dom(),
                ks@.no_duplicates(),
                residual_along(self.states@, rt_key, ks@) <= usize::MAX,
                total == residual_along(self.states@, rt_key, ks@.take(i as int)),
            decreases ks.len() - i,
        {
            let k = ks[i];
            assert(ks@.to_set().contains(k));
            assert(ks@.take(i as int + 1).drop_last() == ks@.take(i as int));
            proof {
                lemma_residual_prefix(self.states@, rt_key, ks@, i as int + 1);
            }
            let s = self.states.get(&k).unwrap();
            if s.runtime_key == rt_key {
                let r = s.function_roots.len() + s.weak_holds.len() + s.roots.len();
                total = total + r;
            }
            i = i + 1;
        }
        assert(ks@.take(ks@.len() as int) == ks@);
        total
    }

    /// The teardown counts of `ctx_key`: its bridge state's strong roots
    /// (roots and function roots) and weak holds, zero without a state,
    /// with the weak-callback counts of its tables and its persistent counts.
    pub fn teardown_counts_for_ctx(
        &self,
        ctx_key: usize,
        weak_callbacks: usize,
        pending_weak: usize,
        strong_persistents: usize,
        weak_persistents: usize,
    ) -> (c: TeardownCounts)
        requires
            self.states@.contains_key(ctx_key) ==> self.states@[ctx_key].roots@.len()
                + self.states@[ctx_key].function_roots@.len() <= usize::MAX,
        ensures
            c.strong_roots == (if self.states@.contains_key(ctx_key) {
                self.states@[ctx_key].roots@.len() + self.states@[ctx_key].function_roots@.len()
            } else {
                0
            }),
            c.weak_holds == (if self.states@.contains_key(ctx_key) {
                self.states@[ctx_key].weak_holds@.len()
            } else {
                0
            }),
            c.weak_callbacks == weak_callbacks,
            c.pending_weak == pending_weak,
            c.strong_persistents == strong_persistents,
            c.weak_persistents == weak_persistents,
    {
        let (roots_len, weak_holds_len, function_roots_len) = match self.states.get(&ctx_key) {
            Some(s) => (s.roots.len(), s.weak_holds.len(), s.function_roots.len()),
            None => (0, 0, 0),
        };
        TeardownCounts {
            strong_roots: roots_len + function_roots_len,
            weak_holds: weak_holds_len,
            weak_callbacks,
            pending_weak,
            strong_persistents,
            weak_persistents,
        }
    }

    /// Roots `value` (a reference the table now owns) in the bridge state of
    /// `ctx_key`; `None` when that context has no state. No other context's
    /// state changes.
    pub fn insert_root_for_ctx(&mut self, ctx_key: usize, value: JsValue) -> (r: Option<u64>)
        requires
            old(self).states@.contains_key(ctx_key) ==> old(self).states@[ctx_key].wf()
                && old(self).states@[ctx_key].roots.can_insert(),
        ensures
            final(self).active == old(self).active,
            final(self).states@.dom() == old(self).states@.dom(),
            forall|k: usize| k != ctx_key && #[trigger] old(self).states@.contains_key(k)
                ==> final(self).states@[k] == old(self).states@[k],
            !old(self).states@.contains_key(ctx_key) ==> r is None && final(self).states@ == old(self).states@,
            old(self).states@.contains_key(ctx_key) ==> {
                let before = old(self).states@[ctx_key];
                let after = final(self).states@[ctx_key];
                &&& r == Some(before.roots.next_id_spec())
                &&& after.wf()
                &&& after.roots@ == before.roots@.insert(
                    before.roots.next_id_spec(),
                    RootEntry { value, immortal: false },
                )
                &&& after.roots.next_id_spec() == before.roots.next_id_spec() + 1
                &&& after.weak_holds@ == before.weak_holds@
                &&& after.weak_root_ids@ == before.weak_root_ids@
                &&& after.function_roots@ == before.function_roots@
                &&& after.root_function_ids@ == before.root_function_ids@
                &&& after.ctx_key == before.ctx_key
                &&& after.runtime_key == before.runtime_key
            },
    {
        match self.states.remove(&ctx_key) {
            Some(mut state) => {
                let id = state.roots.insert_owned(value);
                self.states.insert(ctx_key, state);
                assert(self.states@.dom() =~= old(self).states@.dom());
                Some(id)
            },
            None => None,
        }
    }
}

/// A prefix's sum is at most the whole sum.
proof fn lemma_residual_prefix(m: Map<usize, BridgeState>, rt: usize, ks: Seq<usize>, n: int)
    requires
        0 <= n <= ks.len(),
    ensures
        residual_along(m, rt, ks.take(n)) <= residual_along(m, rt, ks),
    decreases ks.len(),
{
    if n < ks.len() {
        lemma_residual_prefix(m, rt, ks.drop_last(), n);
        assert(ks.drop_last().take(n) == ks.take(n));
    } else {
        assert(ks.take(n) == ks);
    }
}

} // verus!
