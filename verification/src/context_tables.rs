use std::collections::HashMap;
use vstd::prelude::*;

use crate::maps::keys_of;
use crate::registry::{context_removed, BridgeRegistry};
use crate::tables::{object_records_removed, ContextTables, PendingWeak};

verus! {

broadcast use vstd::std_specs::hash::group_hash_axioms;

/// The side tables of every context on this thread, by context key.
pub struct ContextTableRegistry {
    pub tables: HashMap<usize, ContextTables>,
}

/// Empty side tables.
pub open spec fn empty_tables(t: ContextTables) -> bool {
    &&& t.internal_fields@ == Map::<usize, Vec<usize>>::empty()
    &&& t.internal_fields_by_root@ == Map::<u64, Vec<usize>>::empty()
    &&& t.object_field_counts@ == Map::<usize, usize>::empty()
    &&& t.weak_callbacks@ == Map::<usize, crate::tables::WeakSlot>::empty()
    &&& t.pending_weak@ == Seq::<PendingWeak>::empty()
}

impl ContextTableRegistry {
    /// No context has tables yet.
    pub fn new() -> (r: ContextTableRegistry)
        ensures
            r.tables@ == Map::<usize, ContextTables>::empty(),
    {
        ContextTableRegistry { tables: HashMap::new() }
    }

    /// Whether the context `ctx` has side tables.
    pub fn has_context_tables(&self, ctx: usize) -> (b: bool)
        ensures
            b == self.tables@.contains_key(ctx),
    {
        self.tables.contains_key(&ctx)
    }

    /// Takes the tables of `ctx` out of the registry to work on them (empty
    /// tables when it has none); `store_tables` puts them back.
    pub fn take_tables(&mut self, ctx: usize) -> (t: ContextTables)
        ensures
            old(self).tables@.contains_key(ctx) ==> t == old(self).tables@[ctx],
            !old(self).tables@.contains_key(ctx) ==> empty_tables(t),
            final(self).tables@ == old(self).tables@.remove(ctx),
    {
        match self.tables.remove(&ctx) {
            Some(t) => t,
            None => ContextTables::new(),
        }
    }

    /// Makes `t` the tables of `ctx`; no other context's tables change.
    pub fn store_tables(&mut self, ctx: usize, t: ContextTables)
        ensures
            final(self).tables@ == old(self).tables@.insert(ctx, t),
    {
        self.tables.insert(ctx, t);
    }

    /// Removes the tables of `ctx`; whether it had any.
    pub fn remove_context_tables(&mut self, ctx: usize) -> (had: bool)
        ensures
            had == old(self).tables@.contains_key(ctx),
            final(self).tables@ == old(self).tables@.remove(ctx),
    {
        self.tables.remove(&ctx).is_some()
    }

    /// Takes the pending weak callbacks of `ctx` (none when it has no
    /// tables), leaving its queue empty and every other context as it was.
    pub fn take_pending_weak_callbacks(&mut self, ctx: usize) -> (taken: Vec<PendingWeak>)
        ensures
            !old(self).tables@.contains_key(ctx) ==> taken@ == Seq::<PendingWeak>::empty()
                && final(self).tables@ == old(self).tables@,
            old(self).tables@.contains_key(ctx) ==> {
                let pre = old(self).tables@[ctx];
                let post = final(self).tables@[ctx];
                &&& taken@ == pre.pending_weak@
                &&& final(self).tables@.dom() == old(self).tables@.dom()
                &&& forall|c: usize| c != ctx && #[trigger] old(self).tables@.contains_key(c)
                    ==> final(self).tables@[c] == old(self).tables@[c]
                &&& post.pending_weak@ == Seq::<PendingWeak>::empty()
                &&& post.weak_callbacks@ == pre.weak_callbacks@
                &&& post.internal_fields@ == pre.internal_fields@
                &&& post.internal_fields_by_root@ == pre.internal_fields_by_root@
                &&& post.object_field_counts@ == pre.object_field_counts@
            },
    {
        match self.tables.remove(&ctx) {
            Some(t) => {
                let mut t = t;
                let taken = t.take_pending_weak_callbacks();
                self.tables.insert(ctx, t);
                assert(self.tables@.dom() =~= old(self).tables@.dom());
                taken
            },
            None => Vec::new(),
        }
    }

    /// The registered and pending weak-callback counts of `ctx` (zero
    /// without tables).
    pub fn weak_table_counts(&self, ctx: usize) -> (c: (usize, usize))
        ensures
            self.tables@.contains_key(ctx) ==> c == (
                self.tables@[ctx].weak_callbacks@.len() as usize,
                self.tables@[ctx].pending_weak@.len() as usize,
            ),
            !self.tables@.contains_key(ctx) ==> c == (0usize, 0usize),
    {
        match self.tables.get(&ctx) {
            Some(t) => t.weak_table_counts(),
            None => (0, 0),
        }
    }

    /// Drops, in the tables of every context, what is kept for the
    /// collected object at `key` (see `object_records_removed`).
    pub fn remove_object_records(&mut self, key: usize)
        ensures
            final(self).tables@.dom() == old(self).tables@.dom(),
            forall|c: usize| #[trigger] old(self).tables@.contains_key(c)
                ==> object_records_removed(old(self).tables@[c], final(self).tables@[c], key),
    {
        let ks = keys_of(&self.tables);
        let ghost pre = self.tables@;
        let mut i: usize = 0;
        while i < ks.len()
            invariant
                0 <= i <= ks.len(),
                ks@.no_duplicates(),
                ks@.to_set() == pre.dom(),
                self.tables@.dom() == pre.dom(),
                forall|j: int| 0 <= j < i ==> object_records_removed(
                    pre[#[trigger] ks@[j]],
                    self.tables@[ks@[j]],
                    key,
                ),
                forall|c: usize| #[trigger] pre.contains_key(c) && !ks@.take(i as int).contains(c)
                    ==> self.tables@[c] == pre[c],
            decreases ks.len() - i,
        {
            let c = ks[i];
            assert(ks@.to_set().contains(c));
            assert(!ks@.take(i as int).contains(c)) by {
                if ks@.take(i as int).contains(c) {
                    let j = choose|j: int| 0 <= j < i && ks@.take(i as int)[j] == c;
                    assert(ks@[j] == ks@[i as int]);
                }
            }
            let mut t = self.tables.remove(&c).unwrap();
            t.remove_object_records(key);
            self.tables.insert(c, t);
            assert(self.tables@.dom() =~= pre.dom());
            assert forall|c2: usize| #[trigger] pre.contains_key(c2) && !ks@.take(i as int + 1).contains(c2)
                implies self.tables@[c2] == pre[c2] by {
                assert(ks@.take(i as int + 1)[i as int] == c);
                if ks@.take(i as int).contains(c2) {
                    let j = choose|j: int| 0 <= j < i && ks@.take(i as int)[j] == c2;
                    assert(ks@.take(i as int + 1)[j] == c2);
                }
            }
            assert forall|j: int| 0 <= j < i + 1 implies object_records_removed(
                pre[#[trigger] ks@[j]],
                self.tables@[ks@[j]],
                key,
            ) by {
                if j < i {
                    assert(ks@[j] != c);
                }
            }
            i = i + 1;
        }
        assert forall|c: usize| #[trigger] pre.contains_key(c) implies object_records_removed(
            pre[c],
            self.tables@[c],
            key,
        ) by {
            assert(ks@.to_set().contains(c));
            let j = choose|j: int| 0 <= j < ks@.len() && ks@[j] == c;
        }
    }
}

/// `post_reg` and `post_tabs` are `pre_reg` and `pre_tabs` after the
/// context `ctx` was shut down: when it has a bridge state, that state and
/// its side tables are gone (see `context_removed`); when it has none
/// (never bound on this thread, or shut down before), nothing changed.
pub open spec fn context_shut_down(
    pre_reg: BridgeRegistry,
    pre_tabs: ContextTableRegistry,
    post_reg: BridgeRegistry,
    post_tabs: ContextTableRegistry,
    ctx: usize,
) -> bool {
    if pre_reg.states@.contains_key(ctx) {
        &&& context_removed(pre_reg, post_reg, ctx)
        &&& post_tabs.tables@ == pre_tabs.tables@.remove(ctx)
    } else {
        &&& post_reg.states@ == pre_reg.states@
        &&& post_reg.active == pre_reg.active
        &&& post_tabs.tables@ == pre_tabs.tables@
    }
}

/// The side-table step of a context shutdown: the tables of `ctx` go when
/// `ctx` has a bridge state; otherwise nothing changes. Whether they went.
pub fn shutdown_context_tables(reg: &BridgeRegistry, tables: &mut ContextTableRegistry, ctx: usize) -> (dropped: bool)
    ensures
        dropped == reg.states@.contains_key(ctx),
        dropped ==> final(tables).tables@ == old(tables).tables@.remove(ctx),
        !dropped ==> final(tables).tables@ == old(tables).tables@,
{
    if reg.has_bridge_for_ctx(ctx) {
        tables.remove_context_tables(ctx);
        true
    } else {
        false
    }
}

/// The last step of a context shutdown: the bridge state of `ctx` and its
/// side tables go, and `ctx` stops being the active context. A context
/// without a bridge state changes nothing. Whether it had one.
pub fn finish_context_shutdown(reg: &mut BridgeRegistry, tables: &mut ContextTableRegistry, ctx: usize) -> (finished: bool)
    ensures
        finished == old(reg).states@.contains_key(ctx),
        context_shut_down(*old(reg), *old(tables), *final(reg), *final(tables), ctx),
{
    if reg.has_bridge_for_ctx(ctx) {
        tables.remove_context_tables(ctx);
        reg.remove_context(ctx);
        true
    } else {
        false
    }
}

} // verus!
