use std::collections::HashMap;
use vstd::prelude::*;

verus! {

broadcast use vstd::std_specs::hash::group_hash_axioms;

/// The class id of the bridge's object class in each runtime, by runtime key.
pub struct V8ObjectClasses {
    pub by_runtime: HashMap<usize, u32>,
}

impl V8ObjectClasses {
    /// No runtime has a class yet.
    pub fn new() -> (c: V8ObjectClasses)
        ensures
            c.by_runtime@ == Map::<usize, u32>::empty(),
    {
        V8ObjectClasses { by_runtime: HashMap::new() }
    }

    /// The class id registered for runtime `rt_key`, if any.
    pub fn v8_object_class_for_runtime(&self, rt_key: usize) -> (r: Option<u32>)
        ensures
            r == (if self.by_runtime@.contains_key(rt_key) {
                Some(self.by_runtime@[rt_key])
            } else {
                None::<u32>
            }),
    {
        match self.by_runtime.get(&rt_key) {
            Some(id) => Some(*id),
            None => None,
        }
    }

    /// Records `class_id` as the class of runtime `rt_key`.
    pub fn record_class(&mut self, rt_key: usize, class_id: u32)
        ensures
            final(self).by_runtime@ == old(self).by_runtime@.insert(rt_key, class_id),
    {
        self.by_runtime.insert(rt_key, class_id);
    }

    /// Forgets the class of runtime `rt_key` (when the runtime goes).
    pub fn clear_runtime_v8_object_class(&mut self, rt_key: usize)
        ensures
            final(self).by_runtime@ == old(self).by_runtime@.remove(rt_key),
    {
        self.by_runtime.remove(&rt_key);
    }
}

} // verus!
