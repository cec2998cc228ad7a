use std::collections::HashMap;
use vstd::prelude::*;

use crate::maps::keys_of;
use crate::value::JsValue;

verus! {

broadcast use vstd::std_specs::hash::group_hash_axioms;

/// One rooted value: the value, and whether it is an immortal tag (a value
/// with no reference count, such as `undefined`), which is never released.
#[derive(Clone, Copy, Debug, PartialEq, Eq, Structural)]
pub struct RootEntry {
    pub value: JsValue,
    pub immortal: bool,
}

/// The values of the counted entries of `m` met along `ks`, in that order:
/// what must be released when those entries go.
pub open spec fn counted_values(m: Map<u64, RootEntry>, ks: Seq<u64>) -> Seq<JsValue>
    decreases ks.len(),
{
    if ks.len() == 0 {
        Seq::empty()
    } else {
        let rest = counted_values(m, ks.drop_last());
        let e = m[ks.last()];
        if e.immortal {
            rest
        } else {
            rest.push(e.value)
        }
    }
}

/// Walking keys that occur once each, the values handed back for release
/// are exactly one per counted (non-immortal) entry, whatever the value is:
/// each counted entry's value is among them, each of them is the value of a
/// counted entry met along the walk, and there are as many as counted
/// entries.
pub proof fn lemma_counted_values_one_per_counted_entry(m: Map<u64, RootEntry>, ks: Seq<u64>)
    requires
        ks.no_duplicates(),
    ensures
        forall|k: u64| ks.contains(k) && !(#[trigger] m[k]).immortal ==> counted_values(m, ks).contains(m[k].value),
        forall|j: int|
            #![trigger counted_values(m, ks)[j]]
            0 <= j < counted_values(m, ks).len() ==> exists|k: u64|
                ks.contains(k) && !m[k].immortal && (#[trigger] m[k]).value == counted_values(m, ks)[j],
        counted_values(m, ks).len() == ks.filter(|k: u64| !m[k].immortal).len(),
    decreases ks.len(),
{
    reveal(Seq::filter);
    if ks.len() > 0 {
        let front = ks.drop_last();
        let last = ks.last();
        assert(front.no_duplicates());
        lemma_counted_values_one_per_counted_entry(m, front);
        let rest = counted_values(m, front);
        let out = counted_values(m, ks);
        assert forall|k: u64| ks.contains(k) && !(#[trigger] m[k]).immortal implies out.contains(m[k].value) by {
            if k == last {
                assert(out[out.len() - 1] == m[k].value);
            } else {
                let i = choose|i: int| 0 <= i < ks.len() && ks[i] == k;
                assert(front[i] == k);
                assert(front.contains(k));
                let j = choose|j: int| 0 <= j < rest.len() && rest[j] == m[k].value;
                assert(out[j] == rest[j]);
            }
        }
        assert forall|j: int|
            #![trigger out[j]]
            0 <= j < out.len() implies exists|k: u64|
                ks.contains(k) && !m[k].immortal && (#[trigger] m[k]).value == out[j] by {
            if j < rest.len() {
                assert(out[j] == rest[j]);
                let k = choose|k: u64| front.contains(k) && !m[k].immortal && (#[trigger] m[k]).value == rest[j];
                let i = choose|i: int| 0 <= i < front.len() && front[i] == k;
                assert(ks[i] == k);
                assert(ks.contains(k));
            } else {
                assert(ks[ks.len() - 1] == last);
                assert(ks.contains(last));
            }
        }
    }
}

/// `id` is the least id under which the object at address `ptr` is rooted in `m`.
pub open spec fn is_least_root(m: Map<u64, RootEntry>, ptr: usize, id: u64) -> bool {
    &&& m.contains_key(id)
    &&& m[id].value.object_key_spec() == Some(ptr)
    &&& forall|j: u64| #[trigger] m.contains_key(j) && m[j].value.object_key_spec() == Some(ptr) ==> id <= j
}

/// The table of roots of one context: non-zero ids handed to native code,
/// each standing for one reference to a JavaScript value. Ids are never
/// reused; `0` never names a root.
pub struct RootTable {
    entries: HashMap<u64, RootEntry>,
    next_id: u64,
}

impl View for RootTable {
    type V = Map<u64, RootEntry>;

    closed spec fn view(&self) -> Map<u64, RootEntry> {
        self.entries@
    }
}

impl RootTable {
    /// The id the next inserted root receives.
    pub closed spec fn next_id_spec(&self) -> u64 {
        self.next_id
    }

    /// Every id in the table is non-zero and below the next id to hand out.
    pub closed spec fn wf(&self) -> bool {
        &&& 1 <= self.next_id
        &&& forall|id: u64| #[trigger] self.entries@.contains_key(id) ==> 1 <= id < self.next_id
    }

    /// A root table holds finitely many roots.
    pub proof fn lemma_finite(&self)
        ensures
            self@.dom().finite(),
    {
        assert(self.entries@.dom().finite());
    }

    /// One more root can be inserted without exhausting the id space.
    pub open spec fn can_insert(&self) -> bool {
        self.next_id_spec() < u64::MAX
    }

    /// An empty table; the first root gets id 1.
    pub fn new() -> (t: RootTable)
        ensures
            t.wf(),
            t@ == Map::<u64, RootEntry>::empty(),
            t.next_id_spec() == 1,
    {
        RootTable { entries: HashMap::new(), next_id: 1 }
    }

    /// Whether one more root can be inserted without exhausting the id space.
    pub fn has_room(&self) -> (b: bool)
        ensures
            b == self.can_insert(),
    {
        self.next_id < u64::MAX
    }

    /// The number of roots.
    pub fn len(&self) -> (n: usize)
        ensures
            n == self@.len(),
    {
        self.entries.len()
    }

    /// Whether `id` names a root.
    pub fn contains(&self, id: u64) -> (b: bool)
        ensures
            b == self@.contains_key(id),
    {
        self.entries.contains_key(&id)
    }

    /// The value rooted under `id`, if any.
    pub fn get(&self, id: u64) -> (v: Option<JsValue>)
        ensures
            v == (if self@.contains_key(id) { Some(self@[id].value) } else { None::<JsValue> }),
    {
        match self.entries.get(&id) {
            Some(e) => Some(e.value),
            None => None,
        }
    }

    /// Roots `value` under a fresh id and returns the id.
    pub fn insert(&mut self, value: JsValue, immortal: bool) -> (id: u64)
        requires
            old(self).wf(),
            old(self).can_insert(),
        ensures
            final(self).wf(),
            id == old(self).next_id_spec(),
            id != 0,
            !old(self)@.contains_key(id),
            final(self)@ == old(self)@.insert(id, RootEntry { value, immortal }),
            final(self).next_id_spec() == old(self).next_id_spec() + 1,
    {
        let id = self.next_id;
        self.entries.insert(id, RootEntry { value, immortal });
        self.next_id = self.next_id + 1;
        id
    }

    /// Roots a value whose reference the table now owns.
    pub fn insert_owned(&mut self, value: JsValue) -> (id: u64)
        requires
            old(self).wf(),
            old(self).can_insert(),
        ensures
            final(self).wf(),
            id == old(self).next_id_spec(),
            id != 0,
            !old(self)@.contains_key(id),
            final(self)@ == old(self)@.insert(id, RootEntry { value, immortal: false }),
            final(self).next_id_spec() == old(self).next_id_spec() + 1,
    {
        self.insert(value, false)
    }

    /// Roots a value without a reference count (`undefined`, `null`, booleans).
    pub fn insert_immortal_tag(&mut self, value: JsValue) -> (id: u64)
        requires
            old(self).wf(),
            old(self).can_insert(),
        ensures
            final(self).wf(),
            id == old(self).next_id_spec(),
            id != 0,
            !old(self)@.contains_key(id),
            final(self)@ == old(self)@.insert(id, RootEntry { value, immortal: true }),
            final(self).next_id_spec() == old(self).next_id_spec() + 1,
    {
        self.insert(value, true)
    }

    /// A second root for the value of `id`, if `id` names a root. For a
    /// counted value the caller takes one more reference to it.
    pub fn dup(&mut self, id: u64) -> (r: Option<u64>)
        requires
            old(self).wf(),
            old(self).can_insert(),
        ensures
            final(self).wf(),
            match r {
                Some(new_id) => {
                    &&& old(self)@.contains_key(id)
                    &&& new_id != 0
                    &&& new_id == old(self).next_id_spec()
                    &&& !old(self)@.contains_key(new_id)
                    &&& final(self)@ == old(self)@.insert(new_id, old(self)@[id])
                    &&& final(self).next_id_spec() == old(self).next_id_spec() + 1
                },
                None => {
                    &&& !old(self)@.contains_key(id)
                    &&& final(self)@ == old(self)@
                    &&& final(self).next_id_spec() == old(self).next_id_spec()
                },
            },
    {
        match self.entries.get(&id) {
            Some(e) => {
                let e = *e;
                Some(self.insert(e.value, e.immortal))
            },
            None => None,
        }
    }

    /// Removes the root `id`. Returns the value whose reference the caller
    /// must now release: the rooted value, unless it is an immortal tag.
    pub fn drop_root(&mut self, id: u64) -> (released: Option<JsValue>)
        requires
            old(self).wf(),
        ensures
            final(self).wf(),
            final(self)@ == old(self)@.remove(id),
            final(self).next_id_spec() == old(self).next_id_spec(),
            released == (if old(self)@.contains_key(id) && !old(self)@[id].immortal {
                Some(old(self)@[id].value)
            } else {
                None::<JsValue>
            }),
    {
        match self.entries.remove(&id) {
            Some(e) => if e.immortal {
                None
            } else {
                Some(e.value)
            },
            None => None,
        }
    }

    /// Removes the root `id` and hands its reference to the caller.
    pub fn detach_root(&mut self, id: u64) -> (v: Option<JsValue>)
        requires
            old(self).wf(),
        ensures
            final(self).wf(),
            final(self)@ == old(self)@.remove(id),
            final(self).next_id_spec() == old(self).next_id_spec(),
            v == (if old(self)@.contains_key(id) { Some(old(self)@[id].value) } else { None::<JsValue> }),
    {
        match self.entries.remove(&id) {
            Some(e) => Some(e.value),
            None => None,
        }
    }

    /// The least id under which the object at address `ptr` is rooted, if
    /// there is one.
    pub fn find_id_by_ptr(&self, ptr: usize) -> (r: Option<u64>)
        ensures
            match r {
                Some(id) => is_least_root(self@, ptr, id),
                None => forall|id: u64| #[trigger] self@.contains_key(id)
                    ==> self@[id].value.object_key_spec() != Some(ptr),
            },
    {
        let ks = keys_of(&self.entries);
        let mut best: Option<u64> = None;
        let mut i: usize = 0;
        while i < ks.len()
            invariant
                0 <= i <= ks.len(),
                ks@.to_set() == self.entries@.dom(),
                match best {
                    Some(b) => {
                        &&& self.entries@.contains_key(b)
                        &&& self.entries@[b].value.object_key_spec() == Some(ptr)
                        &&& forall|j: int| 0 <= j < i && (#[trigger] self.entries@[ks@[j]]).value.object_key_spec() == Some(ptr)
                            ==> b <= ks@[j]
                    },
                    None => forall|j: int| 0 <= j < i ==> (#[trigger] self.entries@[ks@[j]]).value.object_key_spec() != Some(ptr),
                },
            decreases ks.len() - i,
        {
            let id = ks[i];
            assert(ks@.to_set().contains(id));
            let e = *self.entries.get(&id).unwrap();
            if e.value.is_object() && e.value.payload as usize == ptr {
                match best {
                    Some(b) => {
                        if id < b {
                            best = Some(id);
                        }
                    },
                    None => {
                        best = Some(id);
                    },
                }
            }
            i = i + 1;
        }
        proof {
            assert forall|id: u64| #[trigger] self@.contains_key(id) && self@[id].value.object_key_spec() == Some(ptr)
                implies (match best { Some(b) => b <= id, None => false }) by {
                assert(ks@.to_set().contains(id));
                let j = ks@.index_of(id);
                assert(self.entries@[ks@[j]].value.object_key_spec() == Some(ptr));
            }
        }
        best
    }

    /// Removes every root. Returns the counted values, which the caller must
    /// release, in the order the table walked its entries.
    pub fn clear(&mut self) -> (released: Vec<JsValue>)
        requires
            old(self).wf(),
        ensures
            final(self).wf(),
            final(self)@ == Map::<u64, RootEntry>::empty(),
            final(self).next_id_spec() == old(self).next_id_spec(),
            exists|ks: Seq<u64>|
                #![trigger counted_values(old(self)@, ks)]
                ks.no_duplicates() && ks.to_set() == old(self)@.dom() && released@ == counted_values(
                    old(self)@,
                    ks,
                ) && released@.len() == ks.filter(|k: u64| !old(self)@[k].immortal).len(),
            forall|id: u64| #[trigger] old(self)@.contains_key(id) && !old(self)@[id].immortal ==> released@.contains(
                old(self)@[id].value,
            ),
            forall|j: int|
                #![trigger released@[j]]
                0 <= j < released@.len() ==> exists|id: u64|
                    old(self)@.contains_key(id) && !old(self)@[id].immortal && (#[trigger] old(self)@[id]).value
                        == released@[j],
    {
        let ghost m = self.entries@;
        let ks = keys_of(&self.entries);
        let mut released: Vec<JsValue> = Vec::new();
        let mut i: usize = 0;
        while i < ks.len()
            invariant
                0 <= i <= ks.len(),
                ks@.to_set() == m.dom(),
                self.entries@ == m,
                released@ == counted_values(m, ks@.take(i as int)),
            decreases ks.len() - i,
        {
            let id = ks[i];
            assert(ks@.to_set().contains(id));
            let e = *self.entries.get(&id).unwrap();
            assert(ks@.take(i as int + 1).drop_last() == ks@.take(i as int));
            if !e.immortal {
                released.push(e.value);
            }
            i = i + 1;
        }
        assert(ks@.take(ks@.len() as int) == ks@);
        assert(released@ == counted_values(m, ks@));
        assert(ks@.no_duplicates());
        assert(m == old(self)@);
        proof {
            lemma_counted_values_one_per_counted_entry(m, ks@);
            assert forall|id: u64| #[trigger] m.contains_key(id) implies ks@.contains(id) by {
                assert(ks@.to_set().contains(id));
            }
            assert forall|j: int|
                #![trigger released@[j]]
                0 <= j < released@.len() implies exists|id: u64|
                    m.contains_key(id) && !m[id].immortal && (#[trigger] m[id]).value == released@[j] by {
                let k = choose|k: u64| ks@.contains(k) && !m[k].immortal && (#[trigger] m[k]).value == released@[j];
                assert(ks@.to_set().contains(k));
            }
        }
        self.entries.clear();
        released
    }
}

} // verus!
