use v8_compat::{ContextTables, JsValue, PendingWeak, WeakPass, WeakPhase, WeakSlot};

#[test]
fn internal_field_set_then_get() {
    let mut t = ContextTables::new();
    t.set_internal_field(0x100, 7, 2, 0xBEEF);
    assert_eq!(t.internal_fields.get(&0x100).cloned(), Some(vec![0, 0, 0xBEEF]));
    assert_eq!(t.internal_fields_by_root.get(&7).cloned(), Some(vec![0, 0, 0xBEEF]));
    assert_eq!(t.get_internal_field(Some(0x100), 7, 2, 0), 0xBEEF);
    assert_eq!(t.get_internal_field(None, 7, 2, 0), 0xBEEF);
    assert_eq!(t.get_internal_field(Some(0x100), 7, 1, 0), 0);
    assert_eq!(t.get_internal_field(Some(0x100), 7, 0, 0x55), 0x55);
    assert_eq!(t.get_internal_field(Some(0x100), 7, -1, 0x55), 0);
    t.set_internal_field(0x100, 7, 0, 0xCAFE);
    assert_eq!(t.get_internal_field(Some(0x100), 7, 0, 0x55), 0xCAFE);
}

#[test]
fn reserve_and_count_internal_fields() {
    let mut t = ContextTables::new();
    assert_eq!(t.internal_field_count(Some(0x200)), 0);
    assert_eq!(t.internal_field_count(None), 0);
    t.record_external(0x200, 0x9);
    assert_eq!(t.internal_field_count(Some(0x200)), 1);
    t.reserve_internal_fields(0x200, 3);
    assert_eq!(t.internal_field_count(Some(0x200)), 3);
    assert_eq!(t.internal_fields.get(&0x200).cloned(), Some(vec![0x9, 0, 0]));
    t.reserve_internal_fields(0x200, 1);
    assert_eq!(t.internal_field_count(Some(0x200)), 1);
    assert_eq!(t.internal_fields.get(&0x200).cloned(), Some(vec![0x9, 0, 0]));
}

#[test]
fn embedder_pointer_lookup_order() {
    let mut t = ContextTables::new();
    let obj = JsValue::object(0x300);
    assert_eq!(t.embedder_ptr_for_object(obj, 5, 0, 0x77), 0x77);
    assert_eq!(t.embedder_ptr_for_object(obj, 5, 1, 0x77), 0);
    assert_eq!(t.embedder_ptr_for_object(JsValue::undefined(), 5, 0, 0x77), 0);
    t.internal_fields_by_root.insert(5, vec![0x11]);
    assert_eq!(t.embedder_ptr_for_object(obj, 5, 0, 0x77), 0x11);
    t.record_external(0x300, 0x22);
    assert_eq!(t.embedder_ptr_for_object(obj, 5, 0, 0x77), 0x22);
    assert_eq!(t.internal_field_ptr_for_object(obj, 0), Some(0x22));
    assert_eq!(t.internal_field_ptr_for_root(5, 0), Some(0x11));
    assert_eq!(t.internal_field_ptr_for_root(5, 1), None);
}

#[test]
fn weak_callback_registry() {
    let mut t = ContextTables::new();
    t.register_weak_callback(0x1, 0xC1, 0xA1);
    t.register_weak_callback(0x2, 0, 0xA2);
    t.weak_callbacks.insert(0x3, WeakSlot { callback: 0xC3, parameter: 0xA3, phase: WeakPhase::Pending });
    assert_eq!(t.weak_table_counts(), (3, 0));
    assert_eq!(t.registered_weak_slots(), vec![(0x1, 0xC1, 0xA1)]);
    t.unregister_weak_callback(0x1);
    assert_eq!(t.registered_weak_slots(), vec![]);
    t.queue_pending_weak(PendingWeak { callback: 1, parameter: 2, object_key: 3, pass: WeakPass::Second });
    assert_eq!(t.weak_table_counts(), (2, 1));
}

#[test]
fn cleared_weak_callback_is_not_forced() {
    let mut t = ContextTables::new();
    t.register_weak_callback(0x10, 0xC1, 0xA1);
    t.register_weak_callback(0x20, 0xC2, 0xA2);
    t.unregister_weak_callback(0x10);
    assert_eq!(t.registered_weak_slots(), vec![(0x20, 0xC2, 0xA2)]);
}

#[test]
fn declared_field_count_stays_after_later_stores() {
    let mut t = ContextTables::new();
    t.reserve_internal_fields(0x300, 2);
    t.set_internal_field(0x300, 9, 5, 0xAB);
    t.set_internal_field(0x300, 9, 0, 0xCD);
    assert_eq!(t.internal_field_count(Some(0x300)), 2);
    assert_eq!(t.internal_fields.get(&0x300).map(|f| f.len()), Some(6));
}
