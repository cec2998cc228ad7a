use vstd::prelude::*;

use crate::bridge_state::BridgeState;
use crate::embedder::EmbedderFrames;
use crate::status::RasterV8Status;
use crate::tables::{field_stored, ContextTables};
use crate::value::{object_ptr_key, JsValue};

verus! {

/// The object key of what `root` resolves to in `state`, if it is an object.
pub open spec fn resolved_key(state: BridgeState, root: u64) -> Option<usize> {
    match state.object_for_root(root) {
        Some(v) => v.object_key_spec(),
        None => None,
    }
}

/// Stores `ptr` in internal field `index` of the object that `object_root`
/// resolves to (weak roots included): in the side tables by its address
/// and by the root id, and, for field 0, in the innermost embedder frame.
/// Returns the object, on which the engine's opaque pointer is to be set to
/// `ptr` as well. `Error`, with nothing changed, when the root resolves to
/// no object.
pub fn internal_field_set(
    state: &BridgeState,
    tables: &mut ContextTables,
    frames: &mut EmbedderFrames,
    object_root: u64,
    index: i32,
    ptr: usize,
) -> (r: Result<JsValue, RasterV8Status>)
    requires
        index >= 0,
    ensures
        match resolved_key(*state, object_root) {
            None => {
                &&& r == Err::<JsValue, RasterV8Status>(RasterV8Status::Error)
                &&& *final(tables) == *old(tables)
                &&& *final(frames) == *old(frames)
            },
            Some(key) => {
                &&& r == Ok::<JsValue, RasterV8Status>(state.object_for_root(object_root).unwrap())
                &&& field_stored(*old(tables), *final(tables), key, object_root, index as int, ptr)
                &&& final(frames).depth == old(frames).depth
                &&& final(frames).stack@ == (if index == 0 && old(frames).stack@.len() > 0 {
                    old(frames).stack@.update(old(frames).stack@.len() - 1, ptr)
                } else {
                    old(frames).stack@
                })
            },
        },
{
    let obj = match state.get_object_for_root(object_root) {
        Some(o) => o,
        None => return Err(RasterV8Status::Error),
    };
    let key = match object_ptr_key(obj) {
        Some(k) => k,
        None => return Err(RasterV8Status::Error),
    };
    tables.set_internal_field(key, object_root, index as usize, ptr);
    if index == 0 {
        frames.set_embedder_field0_in_frame(ptr);
    }
    Ok(obj)
}

/// The pointer in internal field `index` of the object that `object_root`
/// resolves to (weak roots included), by its address when it resolves to
/// an object, else by the root id; for field 0 with nothing recorded,
/// `opaque`, the engine's opaque pointer of that object.
pub fn internal_field_get(
    state: &BridgeState,
    tables: &ContextTables,
    object_root: u64,
    index: i32,
    opaque: usize,
) -> (p: usize)
    ensures
        p == tables.field_read(resolved_key(*state, object_root), object_root, index, opaque),
{
    let key = match state.get_object_for_root(object_root) {
        Some(o) => object_ptr_key(o),
        None => None,
    };
    tables.get_internal_field(key, object_root, index, opaque)
}

} // verus!
