use v8_compat::{
    internal_field_get, internal_field_set, root_id_for_ptr, BridgeState, ContextTables, EmbedderFrames, JsValue,
    RasterV8Status, Restrong, RootTable,
};

fn object(ptr: usize) -> JsValue {
    JsValue::object(ptr)
}

fn state() -> BridgeState {
    BridgeState::new(0xA000, 0x1000)
}

#[test]
fn root_table_hands_out_fresh_nonzero_ids() {
    let mut t = RootTable::new();
    let a = t.insert_owned(object(0x10));
    let b = t.insert_immortal_tag(JsValue::undefined());
    assert_eq!(a, 1);
    assert_eq!(b, 2);
    assert_eq!(t.len(), 2);
    assert_eq!(t.get(a), Some(object(0x10)));
    assert_eq!(t.drop_root(b), None);
    assert_eq!(t.drop_root(a), Some(object(0x10)));
    assert_eq!(t.get(a), None);
    let c = t.insert_owned(object(0x11));
    assert_eq!(c, 3);
}

#[test]
fn root_table_dup_and_detach() {
    let mut t = RootTable::new();
    let a = t.insert_owned(object(0x10));
    let d = t.dup(a).unwrap();
    assert_ne!(a, d);
    assert_eq!(t.get(d), Some(object(0x10)));
    assert_eq!(t.dup(77), None);
    assert_eq!(t.detach_root(a), Some(object(0x10)));
    assert_eq!(t.detach_root(a), None);
    assert_eq!(t.find_id_by_ptr(0x10), Some(d));
    assert_eq!(t.find_id_by_ptr(0x99), None);
}

#[test]
fn root_table_clear_releases_counted_values() {
    let mut t = RootTable::new();
    t.insert_owned(object(0x10));
    t.insert_immortal_tag(JsValue::null());
    t.insert_owned(object(0x20));
    let mut released = t.clear();
    released.sort_by_key(|v| v.payload);
    assert_eq!(released, vec![object(0x10), object(0x20)]);
    assert_eq!(t.len(), 0);
}

#[test]
fn weak_root_still_resolves_to_its_object() {
    let mut s = state();
    let id = s.roots.insert_owned(object(0x500));
    let (status, release) = s.make_weak(id);
    assert_eq!(status, RasterV8Status::Success);
    assert_eq!(release, None);
    assert!(!s.roots.contains(id));
    assert_eq!(s.get_object_for_root(id), Some(object(0x500)));
    assert_eq!(s.object_ptr_for_root(id), Ok(0x500));
    assert_eq!(s.weak_hold_keys(), vec![0x500]);
}

#[test]
fn make_weak_of_a_primitive_hands_it_back() {
    let mut s = state();
    let id = s.roots.insert_owned(v8_compat::new_int32(7));
    let (status, release) = s.make_weak(id);
    assert_eq!(status, RasterV8Status::Success);
    assert_eq!(release, Some(v8_compat::new_int32(7)));
    assert_eq!(s.get_object_for_root(id), None);
    assert_eq!(s.make_weak(id), (RasterV8Status::Error, None));
}

#[test]
fn restrong_prefers_existing_root_then_weak_hold_then_fresh() {
    let mut s = state();
    let id = s.roots.insert_owned(object(0x600));
    assert_eq!(s.root_restrong_from_object_ptr(0x600), Ok(Restrong::Existing(id)));
    s.make_weak(id);
    let r = s.root_restrong_from_object_ptr(0x600).unwrap();
    match r {
        Restrong::FromWeak(new_id) => {
            assert_eq!(s.roots.get(new_id), Some(object(0x600)));
            assert_eq!(s.weak_holds.len(), 0);
            assert_eq!(s.get_object_for_root(id), None);
        }
        other => panic!("unexpected {:?}", other),
    }
    match s.root_restrong_from_object_ptr(0x700).unwrap() {
        Restrong::Fresh(fresh) => assert_eq!(s.roots.get(fresh), Some(object(0x700))),
        other => panic!("unexpected {:?}", other),
    }
    assert_eq!(s.root_restrong_from_object_ptr(0), Err(RasterV8Status::Error));
    assert_eq!(s.root_from_js_value(0), Err(RasterV8Status::Error));
    assert!(matches!(s.root_from_js_value(0x700), Ok(Restrong::Existing(_))));
}

#[test]
fn root_id_lookup_by_object_address() {
    let mut s = state();
    let id = s.roots.insert_owned(object(0x800));
    assert_eq!(s.root_id_for_js_object(0x800), Ok(id));
    assert_eq!(s.root_id_for_js_object(0x801), Err(RasterV8Status::Error));
    assert_eq!(s.root_id_for_js_object(0), Err(RasterV8Status::Error));
    assert_eq!(root_id_for_ptr(&s, 0x800), Some(id));
    assert_eq!(s.object_ptr_for_root(999), Err(RasterV8Status::Error));
    let prim = s.roots.insert_owned(JsValue::boolean(true));
    assert_eq!(s.object_ptr_for_root(prim), Err(RasterV8Status::Error));
}

#[test]
fn function_roots_follow_dup_and_drop() {
    let mut s = state();
    let f = s.register_function_root(5, object(0x900));
    assert_eq!(s.function_root_for_id(5), Some(f));
    assert_eq!(s.function_id_for_root(f), Some(5));
    let d = s.dup_root(f).unwrap();
    assert_eq!(s.function_root_for_id(5), Some(d));
    assert_eq!(s.function_id_for_root(d), Some(5));
    assert_eq!(s.drop_root(d), Some(object(0x900)));
    assert_eq!(s.function_root_for_id(5), None);
    assert_eq!(s.function_id_for_root(d), None);
    assert_eq!(s.function_id_for_root(f), Some(5));
    assert_eq!(s.cached_function_root(5), None);
}

#[test]
fn cached_function_root_is_reused() {
    let mut s = state();
    let f = s.register_function_root(9, object(0xA00));
    assert_eq!(s.cached_function_root(9), Some(f));
    assert_eq!(s.cached_function_root(10), None);
    assert_eq!(s.residual_root_count(), 2);
}

#[test]
fn constructor_candidates_in_order() {
    let mut s = state();
    let f = s.register_function_root(3, object(0xB00));
    let d = s.dup_root(f).unwrap();
    assert_eq!(s.constructor_candidates(f), vec![(f, object(0xB00)), (d, object(0xB00))]);
    assert_eq!(s.constructor_candidates(12345), vec![]);
}

#[test]
fn weak_holds_go_once_unrooted_with_a_weak_callback() {
    let mut s = state();
    let a = s.roots.insert_owned(object(0x1));
    let b = s.roots.insert_owned(object(0x2));
    let c = s.roots.insert_owned(object(0x3));
    s.make_weak(a);
    s.make_weak(b);
    s.make_weak(c);
    s.roots.insert_owned(object(0x3));
    let mut tables = ContextTables::new();
    tables.register_weak_callback(0x1, 0xCB, 0);
    tables.register_weak_callback(0x3, 0xCB, 0);
    let released = s.process_weak_holds(&tables);
    assert_eq!(released, vec![object(0x1)]);
    let mut keys = s.weak_hold_keys();
    keys.sort();
    assert_eq!(keys, vec![0x2, 0x3]);
    assert_eq!(s.get_object_for_root(a), None);
    assert_eq!(s.get_object_for_root(b), Some(object(0x2)));
}

#[test]
fn drain_weak_holds_releases_everything() {
    let mut s = state();
    let a = s.roots.insert_owned(object(0x1));
    let b = s.roots.insert_owned(object(0x2));
    s.make_weak(a);
    s.make_weak(b);
    let mut released = s.drain_weak_hold_values();
    released.sort_by_key(|v| v.payload);
    assert_eq!(released, vec![object(0x1), object(0x2)]);
    assert_eq!(s.weak_holds.len(), 0);
    assert_eq!(s.weak_root_ids.len(), 0);
}

#[test]
fn insert_weak_hold_forgets_stale_weak_roots() {
    let mut s = state();
    s.record_weak_root(11, 0x50);
    s.record_weak_root(12, 0x60);
    s.insert_weak_hold(0x50, object(0x50));
    assert_eq!(s.weak_root_ids.get(&11), None);
    assert_eq!(s.weak_root_ids.get(&12), Some(&0x60));
    assert_eq!(s.take_weak_hold(0x50), Some(object(0x50)));
    assert_eq!(s.take_weak_hold(0x50), None);
}

#[test]
fn call_roots_resolve_or_fail() {
    let mut s = state();
    let f = s.roots.insert_owned(object(0xF));
    let r = s.roots.insert_owned(object(0xE));
    let a1 = s.roots.insert_owned(v8_compat::new_int32(1));
    let (func, recv, args) = s.resolve_call(f, r, &vec![a1]).unwrap();
    assert_eq!(func, object(0xF));
    assert_eq!(recv, Some(object(0xE)));
    assert_eq!(args, vec![v8_compat::new_int32(1)]);
    let (_, recv0, _) = s.resolve_call(f, 0, &vec![]).unwrap();
    assert_eq!(recv0, None);
    assert_eq!(s.resolve_call(f, 0, &vec![a1, 404]), Err(RasterV8Status::Error));
    assert_eq!(s.resolve_call(404, 0, &vec![]), Err(RasterV8Status::Error));
    assert_eq!(s.lookup_all(&vec![f, a1]), Ok(vec![object(0xF), v8_compat::new_int32(1)]));
}

#[test]
fn present_values_skip_zero_and_dead_roots() {
    let mut s = state();
    let a = s.roots.insert_owned(object(0x1));
    let b = s.roots.insert_owned(object(0x2));
    s.drop_root(b);
    assert_eq!(s.present_values(&vec![0, a, b, 77, a]), vec![object(0x1), object(0x1)]);
}

#[test]
fn construct_call_sources() {
    let mut s = state();
    let p = s.roots.insert_owned(object(0xD00));
    assert_eq!(s.installed_prototype(p), Some(object(0xD00)));
    assert_eq!(s.installed_prototype(0), None);
    assert_eq!(s.installed_prototype(999), None);
    assert_eq!(s.construct_new_target(true, 4), v8_compat::NewTargetSource::Receiver);
    assert_eq!(s.construct_new_target(false, 4), v8_compat::NewTargetSource::Absent);
    s.register_function_root(4, object(0xE00));
    assert_eq!(s.construct_new_target(false, 4), v8_compat::NewTargetSource::Function(object(0xE00)));
}

#[test]
fn root_from_js_value_reuses_restores_or_roots_afresh() {
    let mut s = state();
    let id = s.roots.insert_owned(object(0x800));
    let before = s.roots.len();
    assert_eq!(s.root_from_js_value(0x800), Ok(Restrong::Existing(id)));
    assert_eq!(s.roots.len(), before);

    let (status, handed_back) = s.make_weak(id);
    assert_eq!(status, RasterV8Status::Success);
    assert_eq!(handed_back, None);
    let restored = match s.root_from_js_value(0x800).unwrap() {
        Restrong::FromWeak(n) => n,
        other => panic!("expected the weak hold back, got {:?}", other),
    };
    assert_eq!(s.roots.get(restored), Some(object(0x800)));
    assert!(s.take_weak_hold(0x800).is_none());
    assert_eq!(s.get_object_for_root(id), None);

    match s.root_from_js_value(0x900).unwrap() {
        Restrong::Fresh(n) => assert_eq!(s.roots.get(n), Some(object(0x900))),
        other => panic!("expected a fresh root, got {:?}", other),
    }
}

#[test]
fn object_lookup_gives_the_least_root() {
    let mut s = state();
    let first = s.roots.insert_owned(object(0xA00));
    let second = s.roots.insert_owned(object(0xA00));
    assert!(first < second);
    assert_eq!(s.root_id_for_js_object(0xA00), Ok(first));
    assert_eq!(root_id_for_ptr(&s, 0xA00), Some(first));
    assert_eq!(s.root_restrong_from_object_ptr(0xA00), Ok(Restrong::Existing(first)));
    s.drop_root(first);
    assert_eq!(s.root_id_for_js_object(0xA00), Ok(second));
}

#[test]
fn release_roots_forgets_function_roots_and_keeps_weak_holds() {
    let mut s = state();
    let f = s.register_function_root(7, object(0xF0));
    let plain = s.roots.insert_owned(object(0xF1));
    let weak = s.roots.insert_owned(object(0xF2));
    s.make_weak(weak);
    let mut released = s.release_roots();
    released.sort_by_key(|v| v.payload);
    assert_eq!(released, vec![object(0xF0), object(0xF1)]);
    assert!(!s.roots.contains(f) && !s.roots.contains(plain));
    assert_eq!(s.function_root_for_id(7), None);
    assert_eq!(s.function_id_for_root(f), None);
    assert_eq!(s.get_object_for_root(weak), Some(object(0xF2)));
}

#[test]
fn internal_field_round_trip_through_a_root() {
    let mut s = state();
    let mut tables = ContextTables::new();
    let mut frames = EmbedderFrames::new();
    frames.push_embedder_field0_frame();
    let root = s.roots.insert_owned(object(0xB00));

    assert_eq!(internal_field_set(&s, &mut tables, &mut frames, root, 1, 0xBEEF), Ok(object(0xB00)));
    assert_eq!(internal_field_set(&s, &mut tables, &mut frames, root, 0, 0xCAFE), Ok(object(0xB00)));
    assert_eq!(frames.current_embedder_field0_in_frame(), 0xCAFE);
    assert_eq!(internal_field_get(&s, &tables, root, 1, 0), 0xBEEF);

    s.make_weak(root);
    assert_eq!(internal_field_get(&s, &tables, root, 1, 0), 0xBEEF);
    assert_eq!(internal_field_get(&s, &tables, root, 0, 0x77), 0xCAFE);
    assert_eq!(internal_field_get(&s, &tables, root, 2, 0x77), 0);

    let dead = 0xDEAD;
    assert_eq!(internal_field_set(&s, &mut tables, &mut frames, dead, 0, 0x1), Err(RasterV8Status::Error));
    assert_eq!(frames.current_embedder_field0_in_frame(), 0xCAFE);
    let prim = s.roots.insert_owned(JsValue::undefined());
    assert_eq!(internal_field_set(&s, &mut tables, &mut frames, prim, 0, 0x1), Err(RasterV8Status::Error));
}
