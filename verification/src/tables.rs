use std::collections::HashMap;
use vstd::prelude::*;

use crate::maps::keys_of;
use crate::value::JsValue;

verus! {

broadcast use vstd::std_specs::hash::group_hash_axioms;

/// Where a registered weak callback stands.
#[derive(Clone, Copy, Debug, PartialEq, Eq, Structural)]
pub enum WeakPhase {
    /// Registered on a live object; not yet due.
    Registered,
    /// Its object is gone; the callback waits in the pending queue.
    Pending,
}

/// A weak callback registered on an object.
#[derive(Clone, Copy, Debug, PartialEq, Eq, Structural)]
pub struct WeakSlot {
    pub callback: usize,
    pub parameter: usize,
    pub phase: WeakPhase,
}

/// Which of the two passes of a weak callback is due.
#[derive(Clone, Copy, Debug, PartialEq, Eq, Structural)]
pub enum WeakPass {
    First,
    Second,
}

/// A weak callback that is due and waits to be invoked.
#[derive(Clone, Copy, Debug, PartialEq, Eq, Structural)]
pub struct PendingWeak {
    pub callback: usize,
    pub parameter: usize,
    pub object_key: usize,
    pub pass: WeakPass,
}

/// The entries of `m` met along `ks` whose slot is registered with a
/// non-null callback, as (object key, callback, parameter), in that order.
pub open spec fn registered_slots(m: Map<usize, WeakSlot>, ks: Seq<usize>) -> Seq<(usize, usize, usize)>
    decreases ks.len(),
{
    if ks.len() == 0 {
        Seq::empty()
    } else {
        let rest = registered_slots(m, ks.drop_last());
        let k = ks.last();
        let s = m[k];
        if s.phase == WeakPhase::Registered && s.callback != 0 {
            rest.push((k, s.callback, s.parameter))
        } else {
            rest
        }
    }
}

/// A slot is due to be forced at teardown: registered on a live object
/// with a non-null callback.
pub open spec fn forceable(s: WeakSlot) -> bool {
    s.phase == WeakPhase::Registered && s.callback != 0
}

/// Listing along keys that occur once each gives every forceable slot of
/// those keys, as (key, callback, parameter) — however many share a
/// callback — nothing else, and no key twice.
pub proof fn lemma_registered_slots_lists_every_forceable_slot(m: Map<usize, WeakSlot>, ks: Seq<usize>)
    requires
        ks.no_duplicates(),
    ensures
        forall|k: usize| ks.contains(k) && forceable(#[trigger] m[k]) ==> registered_slots(m, ks).contains(
            (k, m[k].callback, m[k].parameter),
        ),
        forall|j: int| 0 <= j < registered_slots(m, ks).len() ==> {
            let e = #[trigger] registered_slots(m, ks)[j];
            &&& ks.contains(e.0)
            &&& forceable(m[e.0])
            &&& e == (e.0, m[e.0].callback, m[e.0].parameter)
        },
        forall|i: int, j: int| 0 <= i < j < registered_slots(m, ks).len() ==> (#[trigger] registered_slots(m, ks)[i]).0
            != (#[trigger] registered_slots(m, ks)[j]).0,
    decreases ks.len(),
{
    if ks.len() > 0 {
        let front = ks.drop_last();
        let last = ks.last();
        assert(front.no_duplicates());
        lemma_registered_slots_lists_every_forceable_slot(m, front);
        let rest = registered_slots(m, front);
        let out = registered_slots(m, ks);
        assert(!front.contains(last)) by {
            if front.contains(last) {
                let i = choose|i: int| 0 <= i < front.len() && front[i] == last;
                assert(ks[i] == ks[ks.len() - 1]);
            }
        }
        assert forall|k: usize| ks.contains(k) && forceable(#[trigger] m[k]) implies out.contains(
            (k, m[k].callback, m[k].parameter),
        ) by {
            if k == last {
                assert(out[out.len() - 1] == (k, m[k].callback, m[k].parameter));
            } else {
                let i = choose|i: int| 0 <= i < ks.len() && ks[i] == k;
                assert(front[i] == k);
                assert(front.contains(k));
                let j = choose|j: int| 0 <= j < rest.len() && rest[j] == (k, m[k].callback, m[k].parameter);
                assert(out[j] == rest[j]);
            }
        }
        assert forall|j: int| 0 <= j < out.len() implies {
            let e = #[trigger] out[j];
            &&& ks.contains(e.0)
            &&& forceable(m[e.0])
            &&& e == (e.0, m[e.0].callback, m[e.0].parameter)
        } by {
            if j < rest.len() {
                assert(out[j] == rest[j]);
                let e = rest[j];
                assert(front.contains(e.0));
                let i = choose|i: int| 0 <= i < front.len() && front[i] == e.0;
                assert(ks[i] == e.0);
            } else {
                assert(ks[ks.len() - 1] == last);
            }
        }
        assert forall|i: int, j: int| 0 <= i < j < out.len() implies (#[trigger] out[i]).0 != (#[trigger] out[j]).0 by {
            if j < rest.len() {
                assert(out[i] == rest[i] && out[j] == rest[j]);
            } else {
                assert(out[i] == rest[i]);
                assert(front.contains(rest[i].0));
            }
        }
    }
}

/// The pointer stored in slot `index` of the field list of `key` in `m`, if any.
pub open spec fn field_at<K>(m: Map<K, Vec<usize>>, key: K, index: int) -> Option<usize> {
    if m.contains_key(key) && 0 <= index < m[key]@.len() {
        Some(m[key]@[index])
    } else {
        None
    }
}

/// `fields` after slot `idx` was set to `ptr`, growing it with zeros first
/// when it is too short.
pub open spec fn set_slot(fields: Seq<usize>, idx: int, ptr: usize) -> Seq<usize> {
    if idx < fields.len() {
        fields.update(idx, ptr)
    } else {
        (fields + Seq::new((idx + 1 - fields.len()) as nat, |i: int| 0usize)).update(idx, ptr)
    }
}

/// `post` is `pre` after `ptr` was stored in internal field `index` of the
/// object at `key`, rooted as `root_id`, both by address and by root id
/// (field lists grow with null pointers as needed); nothing else changed.
pub open spec fn field_stored(pre: ContextTables, post: ContextTables, key: usize, root_id: u64, index: int, ptr: usize) -> bool {
    &&& post.internal_fields@ == pre.internal_fields@.insert(key, post.internal_fields@[key])
    &&& post.internal_fields@[key]@ == set_slot(
        if pre.internal_fields@.contains_key(key) { pre.internal_fields@[key]@ } else { Seq::<usize>::empty() },
        index,
        ptr,
    )
    &&& post.internal_fields_by_root@ == pre.internal_fields_by_root@.insert(root_id, post.internal_fields_by_root@[root_id])
    &&& post.internal_fields_by_root@[root_id]@ == set_slot(
        if pre.internal_fields_by_root@.contains_key(root_id) {
            pre.internal_fields_by_root@[root_id]@
        } else {
            Seq::<usize>::empty()
        },
        index,
        ptr,
    )
    &&& post.object_field_counts@ == pre.object_field_counts@
    &&& post.weak_callbacks@ == pre.weak_callbacks@
    &&& post.pending_weak@ == pre.pending_weak@
}

/// `post` is `pre` once the object at `key` has been collected: its internal
/// fields and declared field count are gone, and a weak callback still
/// registered on it with a non-null callback is due: its slot is marked
/// pending and its first pass is at the end of the pending queue.
pub open spec fn object_records_removed(pre: ContextTables, post: ContextTables, key: usize) -> bool {
    let due = pre.weak_callbacks@.contains_key(key) && pre.weak_callbacks@[key].phase == WeakPhase::Registered
        && pre.weak_callbacks@[key].callback != 0;
    let slot = pre.weak_callbacks@[key];
    &&& post.internal_fields@ == pre.internal_fields@.remove(key)
    &&& post.object_field_counts@ == pre.object_field_counts@.remove(key)
    &&& post.internal_fields_by_root@ == pre.internal_fields_by_root@
    &&& if due {
        &&& post.weak_callbacks@ == pre.weak_callbacks@.insert(
            key,
            WeakSlot { callback: slot.callback, parameter: slot.parameter, phase: WeakPhase::Pending },
        )
        &&& post.pending_weak@ == pre.pending_weak@.push(
            PendingWeak { callback: slot.callback, parameter: slot.parameter, object_key: key, pass: WeakPass::First },
        )
    } else {
        &&& post.weak_callbacks@ == pre.weak_callbacks@
        &&& post.pending_weak@ == pre.pending_weak@
    }
}

/// The side tables of one context: internal fields of wrapped objects
/// (by object address and by root id), the declared field counts, the weak
/// callbacks registered on objects, and the queue of due weak callbacks.
pub struct ContextTables {
    pub internal_fields: HashMap<usize, Vec<usize>>,
    pub internal_fields_by_root: HashMap<u64, Vec<usize>>,
    pub object_field_counts: HashMap<usize, usize>,
    pub weak_callbacks: HashMap<usize, WeakSlot>,
    pub pending_weak: Vec<PendingWeak>,
}

/// Grows `v` with zeros to at least `len` entries.
fn grow_to(v: &mut Vec<usize>, len: usize)
    ensures
        old(v)@.len() >= len ==> final(v)@ == old(v)@,
        old(v)@.len() < len ==> final(v)@ == old(v)@ + Seq::new((len - old(v)@.len()) as nat, |i: int| 0usize),
{
    if v.len() < len {
        let ghost v0 = v@;
        let mut n = v.len();
        while n < len
            invariant
                v0.len() <= n <= len,
                v@.len() == n,
                v@ == v0 + Seq::new((n - v0.len()) as nat, |i: int| 0usize),
            decreases len - n,
        {
            v.push(0);
            n = n + 1;
        }
    }
}

/// Sets slot `idx` of `v` to `ptr`, growing `v` with zeros first when needed.
fn set_slot_in(v: &mut Vec<usize>, idx: usize, ptr: usize)
    requires
        idx < usize::MAX,
    ensures
        final(v)@ == set_slot(old(v)@, idx as int, ptr),
{
    grow_to(v, idx + 1);
    v.set(idx, ptr);
}

impl ContextTables {
    /// The number of internal fields of the object at `key`: its declared
    /// count, else the length of its field list, else `0`.
    pub open spec fn field_count(&self, key: Option<usize>) -> usize {
        match key {
            Some(k) => if self.object_field_counts@.contains_key(k) {
                self.object_field_counts@[k]
            } else if self.internal_fields@.contains_key(k) {
                self.internal_fields@[k]@.len() as usize
            } else {
                0usize
            },
            None => 0usize,
        }
    }

    /// What reading internal field `index` gives (see `get_internal_field`).
    pub open spec fn field_read(&self, key: Option<usize>, root_id: u64, index: i32, opaque: usize) -> usize {
        let recorded = if index < 0 {
            None::<usize>
        } else {
            match key {
                Some(k) if field_at(self.internal_fields@, k, index as int) is Some
                    => field_at(self.internal_fields@, k, index as int),
                _ => field_at(self.internal_fields_by_root@, root_id, index as int),
            }
        };
        let ptr = match recorded {
            Some(p) => p,
            None => 0usize,
        };
        if ptr == 0 && index == 0 {
            opaque
        } else {
            ptr
        }
    }

    /// Empty tables.
    pub fn new() -> (t: ContextTables)
        ensures
            t.internal_fields@ == Map::<usize, Vec<usize>>::empty(),
            t.internal_fields_by_root@ == Map::<u64, Vec<usize>>::empty(),
            t.object_field_counts@ == Map::<usize, usize>::empty(),
            t.weak_callbacks@ == Map::<usize, WeakSlot>::empty(),
            t.pending_weak@ == Seq::<PendingWeak>::empty(),
    {
        ContextTables {
            internal_fields: HashMap::new(),
            internal_fields_by_root: HashMap::new(),
            object_field_counts: HashMap::new(),
            weak_callbacks: HashMap::new(),
            pending_weak: Vec::new(),
        }
    }

    /// The pointer in internal field `index` of object `obj`, looked up by
    /// the object's address.
    pub fn internal_field_ptr_for_object(&self, obj: JsValue, index: usize) -> (r: Option<usize>)
        ensures
            r == (match obj.object_key_spec() {
                Some(key) => field_at(self.internal_fields@, key, index as int),
                None => None::<usize>,
            }),
    {
        let key = match crate::value::object_ptr_key(obj) {
            Some(k) => k,
            None => return None,
        };
        match self.internal_fields.get(&key) {
            Some(fields) => if index < fields.len() {
                Some(fields[index])
            } else {
                None
            },
            None => None,
        }
    }

    /// The pointer in internal field `index` recorded for root `root_id`.
    pub fn internal_field_ptr_for_root(&self, root_id: u64, index: usize) -> (r: Option<usize>)
        ensures
            r == field_at(self.internal_fields_by_root@, root_id, index as int),
    {
        match self.internal_fields_by_root.get(&root_id) {
            Some(fields) => if index < fields.len() {
                Some(fields[index])
            } else {
                None
            },
            None => None,
        }
    }

    /// The embedder pointer of `obj` in field `index`: first by the object's
    /// address, then by its root id; for field 0 of an object, the opaque
    /// pointer the engine holds for it (`opaque`); `0` when none is set.
    pub fn embedder_ptr_for_object(&self, obj: JsValue, root_id: u64, index: usize, opaque: usize) -> (p: usize)
        ensures
            p == (match obj.object_key_spec() {
                Some(key) if field_at(self.internal_fields@, key, index as int) is Some
                    => field_at(self.internal_fields@, key, index as int)->0,
                _ => if field_at(self.internal_fields_by_root@, root_id, index as int) is Some {
                    field_at(self.internal_fields_by_root@, root_id, index as int)->0
                } else if index == 0 && obj.is_object_spec() && opaque != 0 {
                    opaque
                } else {
                    0
                },
            }),
    {
        if let Some(ptr) = self.internal_field_ptr_for_object(obj, index) {
            return ptr;
        }
        if let Some(ptr) = self.internal_field_ptr_for_root(root_id, index) {
            return ptr;
        }
        if index == 0 && obj.is_object() && opaque != 0 {
            return opaque;
        }
        0
    }

    /// Records `ptr` as the next internal field of the object at `key`
    /// (an external value carries its pointer in its first field).
    pub fn record_external(&mut self, key: usize, ptr: usize)
        ensures
            final(self).internal_fields@.dom() == old(self).internal_fields@.dom().insert(key),
            forall|k: usize| k != key && #[trigger] old(self).internal_fields@.contains_key(k)
                ==> final(self).internal_fields@[k] == old(self).internal_fields@[k],
            final(self).internal_fields@[key]@ == (if old(self).internal_fields@.contains_key(key) {
                old(self).internal_fields@[key]@
            } else {
                Seq::<usize>::empty()
            }).push(ptr),
            final(self).internal_fields_by_root@ == old(self).internal_fields_by_root@,
            final(self).object_field_counts@ == old(self).object_field_counts@,
            final(self).weak_callbacks@ == old(self).weak_callbacks@,
            final(self).pending_weak@ == old(self).pending_weak@,
    {
        let mut fields = match self.internal_fields.remove(&key) {
            Some(f) => f,
            None => Vec::new(),
        };
        fields.push(ptr);
        self.internal_fields.insert(key, fields);
    }

    /// Declares that the object at `key` has `count` internal fields and
    /// grows its field list with null pointers to at least that length.
    pub fn reserve_internal_fields(&mut self, key: usize, count: usize)
        ensures
            final(self).object_field_counts@ == old(self).object_field_counts@.insert(key, count),
            final(self).internal_fields@ == old(self).internal_fields@.insert(key, final(self).internal_fields@[key]),
            ({
                let before = if old(self).internal_fields@.contains_key(key) {
                    old(self).internal_fields@[key]@
                } else {
                    Seq::<usize>::empty()
                };
                final(self).internal_fields@[key]@ == (if before.len() < count {
                    before + Seq::new((count - before.len()) as nat, |i: int| 0usize)
                } else {
                    before
                })
            }),
            final(self).internal_fields_by_root@ == old(self).internal_fields_by_root@,
            final(self).weak_callbacks@ == old(self).weak_callbacks@,
            final(self).pending_weak@ == old(self).pending_weak@,
    {
        self.object_field_counts.insert(key, count);
        let mut fields = match self.internal_fields.remove(&key) {
            Some(f) => f,
            None => Vec::new(),
        };
        grow_to(&mut fields, count);
        self.internal_fields.insert(key, fields);
    }

    /// The number of internal fields of the object at `key`: its declared
    /// count, else the length of its field list, else `0`.
    pub fn internal_field_count(&self, key: Option<usize>) -> (n: usize)
        ensures
            n == self.field_count(key),
    {
        match key {
            Some(k) => match self.object_field_counts.get(&k) {
                Some(c) => *c,
                None => match self.internal_fields.get(&k) {
                    Some(f) => f.len(),
                    None => 0,
                },
            },
            None => 0,
        }
    }

    /// Stores `ptr` in internal field `index` of the object at `key`, which
    /// is rooted as `root_id`, both by address and by root id, growing the
    /// field lists with null pointers as needed.
    pub fn set_internal_field(&mut self, key: usize, root_id: u64, index: usize, ptr: usize)
        requires
            index < usize::MAX,
        ensures
            field_stored(*old(self), *final(self), key, root_id, index as int, ptr),
    {
        let mut fields = match self.internal_fields.remove(&key) {
            Some(f) => f,
            None => Vec::new(),
        };
        set_slot_in(&mut fields, index, ptr);
        self.internal_fields.insert(key, fields);
        let mut root_fields = match self.internal_fields_by_root.remove(&root_id) {
            Some(f) => f,
            None => Vec::new(),
        };
        set_slot_in(&mut root_fields, index, ptr);
        self.internal_fields_by_root.insert(root_id, root_fields);
        assert(self.internal_fields@ =~= old(self).internal_fields@.insert(key, self.internal_fields@[key]));
        assert(self.internal_fields_by_root@ =~= old(self).internal_fields_by_root@.insert(
            root_id,
            self.internal_fields_by_root@[root_id],
        ));
    }

    /// The pointer in internal field `index` of an object: by its address
    /// `key` when known, else by its root id; for field 0 with nothing
    /// recorded, the engine's opaque pointer for the object (`opaque`, `0`
    /// when the object is unknown). A negative index names no field.
    pub fn get_internal_field(&self, key: Option<usize>, root_id: u64, index: i32, opaque: usize) -> (p: usize)
        ensures
            p == self.field_read(key, root_id, index, opaque),
    {
        let mut ptr: usize = 0;
        if index >= 0 {
            let idx = index as usize;
            let by_key = match key {
                Some(k) => match self.internal_fields.get(&k) {
                    Some(fields) => if idx < fields.len() {
                        Some(fields[idx])
                    } else {
                        None
                    },
                    None => None,
                },
                None => None,
            };
            ptr = match by_key {
                Some(p) => p,
                None => match self.internal_field_ptr_for_root(root_id, idx) {
                    Some(p) => p,
                    None => 0,
                },
            };
        }
        if ptr == 0 && index == 0 {
            ptr = opaque;
        }
        ptr
    }

    /// Registers `callback` with `parameter` as the weak callback of the
    /// object at `key`, replacing any earlier one.
    pub fn register_weak_callback(&mut self, key: usize, callback: usize, parameter: usize)
        ensures
            final(self).weak_callbacks@ == old(self).weak_callbacks@.insert(
                key,
                WeakSlot { callback, parameter, phase: WeakPhase::Registered },
            ),
            final(self).internal_fields@ == old(self).internal_fields@,
            final(self).internal_fields_by_root@ == old(self).internal_fields_by_root@,
            final(self).object_field_counts@ == old(self).object_field_counts@,
            final(self).pending_weak@ == old(self).pending_weak@,
    {
        self.weak_callbacks.insert(key, WeakSlot { callback, parameter, phase: WeakPhase::Registered });
    }

    /// Forgets the weak callback of the object at `key`.
    pub fn unregister_weak_callback(&mut self, key: usize)
        ensures
            final(self).weak_callbacks@ == old(self).weak_callbacks@.remove(key),
            final(self).internal_fields@ == old(self).internal_fields@,
            final(self).internal_fields_by_root@ == old(self).internal_fields_by_root@,
            final(self).object_field_counts@ == old(self).object_field_counts@,
            final(self).pending_weak@ == old(self).pending_weak@,
    {
        self.weak_callbacks.remove(&key);
    }

    /// Drops what the tables keep for the object at `key` once that object
    /// has been collected, and makes its registered weak callback due (see
    /// `object_records_removed`).
    pub fn remove_object_records(&mut self, key: usize)
        ensures
            object_records_removed(*old(self), *final(self), key),
    {
        self.internal_fields.remove(&key);
        self.object_field_counts.remove(&key);
        let found = match self.weak_callbacks.get(&key) {
            Some(slot) => Some(*slot),
            None => None,
        };
        if let Some(slot) = found {
            if slot.phase == WeakPhase::Registered && slot.callback != 0 {
                self.weak_callbacks.insert(
                    key,
                    WeakSlot { callback: slot.callback, parameter: slot.parameter, phase: WeakPhase::Pending },
                );
                self.pending_weak.push(
                    PendingWeak { callback: slot.callback, parameter: slot.parameter, object_key: key, pass: WeakPass::First },
                );
            }
        }
    }

    /// Adds a due weak callback to the end of the pending queue.
    pub fn queue_pending_weak(&mut self, item: PendingWeak)
        ensures
            final(self).pending_weak@ == old(self).pending_weak@.push(item),
            final(self).weak_callbacks@ == old(self).weak_callbacks@,
            final(self).internal_fields@ == old(self).internal_fields@,
            final(self).internal_fields_by_root@ == old(self).internal_fields_by_root@,
            final(self).object_field_counts@ == old(self).object_field_counts@,
    {
        self.pending_weak.push(item);
    }

    /// Takes the whole pending queue, leaving it empty.
    pub fn take_pending_weak_callbacks(&mut self) -> (taken: Vec<PendingWeak>)
        ensures
            taken@ == old(self).pending_weak@,
            final(self).pending_weak@ == Seq::<PendingWeak>::empty(),
            final(self).weak_callbacks@ == old(self).weak_callbacks@,
            final(self).internal_fields@ == old(self).internal_fields@,
            final(self).internal_fields_by_root@ == old(self).internal_fields_by_root@,
            final(self).object_field_counts@ == old(self).object_field_counts@,
    {
        let mut taken: Vec<PendingWeak> = Vec::new();
        std::mem::swap(&mut taken, &mut self.pending_weak);
        taken
    }

    /// The number of registered weak callbacks and of pending ones.
    pub fn weak_table_counts(&self) -> (c: (usize, usize))
        ensures
            c.0 == self.weak_callbacks@.len(),
            c.1 == self.pending_weak@.len(),
    {
        (self.weak_callbacks.len(), self.pending_weak.len())
    }

    /// The weak callbacks still registered with a non-null callback, as
    /// (object key, callback, parameter), in the order the table walks them.
    pub fn registered_weak_slots(&self) -> (slots: Vec<(usize, usize, usize)>)
        ensures
            exists|ks: Seq<usize>|
                #![trigger registered_slots(self.weak_callbacks@, ks)]
                ks.no_duplicates() && ks.to_set() == self.weak_callbacks@.dom() && slots@
                    == registered_slots(self.weak_callbacks@, ks),
            forall|k: usize| #[trigger] self.weak_callbacks@.contains_key(k) && forceable(self.weak_callbacks@[k])
                ==> slots@.contains((k, self.weak_callbacks@[k].callback, self.weak_callbacks@[k].parameter)),
            forall|j: int| 0 <= j < slots@.len() ==> {
                let e = #[trigger] slots@[j];
                &&& self.weak_callbacks@.contains_key(e.0)
                &&& forceable(self.weak_callbacks@[e.0])
                &&& e == (e.0, self.weak_callbacks@[e.0].callback, self.weak_callbacks@[e.0].parameter)
            },
            forall|i: int, j: int| 0 <= i < j < slots@.len() ==> (#[trigger] slots@[i]).0 != (#[trigger] slots@[j]).0,
    {
        let ks = keys_of(&self.weak_callbacks);
        let mut slots: Vec<(usize, usize, usize)> = Vec::new();
        let mut i: usize = 0;
        while i < ks.len()
            invariant
                0 <= i <= ks.len(),
                ks@.to_set() == self.weak_callbacks@.dom(),
                slots@ == registered_slots(self.weak_callbacks@, ks@.take(i as int)),
            decreases ks.len() - i,
        {
            let k = ks[i];
            assert(ks@.to_set().contains(k));
            let slot = *self.weak_callbacks.get(&k).unwrap();
            assert(ks@.take(i as int + 1).drop_last() == ks@.take(i as int));
            if slot.phase == WeakPhase::Registered && slot.callback != 0 {
                slots.push((k, slot.callback, slot.parameter));
            }
            i = i + 1;
        }
        assert(ks@.take(ks@.len() as int) == ks@);
        assert(ks@.no_duplicates());
        proof {
            lemma_registered_slots_lists_every_forceable_slot(self.weak_callbacks@, ks@);
            assert forall|k: usize| #[trigger] self.weak_callbacks@.contains_key(k) implies ks@.contains(k) by {
                assert(ks@.to_set().contains(k));
            }
            assert forall|j: int| 0 <= j < slots@.len() implies self.weak_callbacks@.contains_key(
                (#[trigger] slots@[j]).0,
            ) by {
                assert(ks@.contains(slots@[j].0));
                assert(ks@.to_set().contains(slots@[j].0));
            }
        }
        slots
    }
}

} // verus!
