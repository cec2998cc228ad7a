use v8_compat::{finish_context_shutdown, shutdown_context_tables, BridgeRegistry, ContextTableRegistry, ContextTables, JsValue, PendingWeak, WeakPass};

const RUNTIME: usize = 0x1000;
const CTX_A: usize = 0xA000;
const CTX_B: usize = 0xB000;

fn object(ptr: usize) -> JsValue {
    JsValue::object(ptr)
}

#[test]
fn bridge_roots_are_per_context() {
    let mut reg = BridgeRegistry::new();
    reg.bind_bridge(CTX_A, RUNTIME);
    reg.bind_bridge(CTX_B, RUNTIME);

    reg.set_active_bridge_context(CTX_A);
    let active = reg.active_ctx_key();
    let root_a = reg.insert_root_for_ctx(active, object(0x42)).unwrap();

    let visible_in_b = reg.states.get(&CTX_B).unwrap().roots.get(root_a).is_some();
    assert!(!visible_in_b);
    assert!(reg.states.get(&CTX_A).unwrap().roots.get(root_a).is_some());

    reg.remove_context(CTX_A);
    reg.remove_context(CTX_B);
    assert_eq!(reg.residual_root_count_for_runtime(RUNTIME), 0);
}

/// Runs `f` on the side tables of `ctx`, creating them on first use.
fn with_tables<R>(tables: &mut ContextTableRegistry, ctx: usize, f: impl FnOnce(&mut ContextTables) -> R) -> R {
    let mut t = tables.take_tables(ctx);
    let r = f(&mut t);
    tables.store_tables(ctx, t);
    r
}

#[test]
fn per_context_tables_do_not_leak_across_contexts() {
    let mut reg = BridgeRegistry::new();
    let mut tables = ContextTableRegistry::new();
    reg.bind_bridge(CTX_A, RUNTIME);
    let key_a = 0x7000usize;
    with_tables(&mut tables, CTX_A, |t| t.record_external(key_a, 42));

    let count_b = with_tables(&mut tables, CTX_B, |t| t.internal_fields.len());
    assert_eq!(count_b, 0);
    let fields_a = with_tables(&mut tables, CTX_A, |t| t.internal_fields.get(&key_a).cloned());
    assert_eq!(fields_a, Some(vec![42]));

    finish_context_shutdown(&mut reg, &mut tables, CTX_A);
    finish_context_shutdown(&mut reg, &mut tables, CTX_B);
    assert!(!tables.has_context_tables(CTX_A));
    assert_eq!(reg.residual_root_count_for_runtime(RUNTIME), 0);
}

#[test]
fn pending_weak_queue_is_per_context() {
    let mut reg = BridgeRegistry::new();
    let mut tables = ContextTableRegistry::new();
    reg.bind_bridge(CTX_A, RUNTIME);
    reg.bind_bridge(CTX_B, RUNTIME);
    with_tables(&mut tables, CTX_A, |t| {
        t.queue_pending_weak(PendingWeak { callback: 1, parameter: 2, object_key: 3, pass: WeakPass::First })
    });

    let pending_b = tables.take_pending_weak_callbacks(CTX_B);
    assert!(pending_b.is_empty());
    let pending_a = tables.take_pending_weak_callbacks(CTX_A);
    assert_eq!(pending_a.len(), 1);

    finish_context_shutdown(&mut reg, &mut tables, CTX_A);
    finish_context_shutdown(&mut reg, &mut tables, CTX_B);
    assert!(!tables.has_context_tables(CTX_A));
    assert!(!tables.has_context_tables(CTX_B));
}

#[test]
fn context_tables_survive_sibling_shutdown() {
    let mut reg = BridgeRegistry::new();
    let mut tables = ContextTableRegistry::new();
    reg.bind_bridge(CTX_A, RUNTIME);
    reg.bind_bridge(CTX_B, RUNTIME);
    let key_b = 0x9900usize;
    with_tables(&mut tables, CTX_B, |t| t.record_external(key_b, 99));
    with_tables(&mut tables, CTX_A, |t| t.record_external(0x1234, 7));
    let root_b = reg.insert_root_for_ctx(CTX_B, object(key_b)).unwrap();

    finish_context_shutdown(&mut reg, &mut tables, CTX_A);

    let still_there = with_tables(&mut tables, CTX_B, |t| t.internal_fields.get(&key_b).cloned());
    assert_eq!(still_there, Some(vec![99]));
    assert!(!tables.has_context_tables(CTX_A));
    assert!(reg.has_bridge_for_ctx(CTX_B));
    assert_eq!(reg.states.get(&CTX_B).unwrap().roots.get(root_b), Some(object(key_b)));

    finish_context_shutdown(&mut reg, &mut tables, CTX_B);
    assert!(!tables.has_context_tables(CTX_B));
}

#[test]
fn collected_object_records_are_dropped_in_every_context() {
    let mut tables = ContextTableRegistry::new();
    let key = 0x5550usize;
    with_tables(&mut tables, CTX_A, |t| {
        t.reserve_internal_fields(key, 2);
        t.register_weak_callback(key, 0x11, 0x22);
    });
    with_tables(&mut tables, CTX_B, |t| t.record_external(key, 5));

    tables.remove_object_records(key);

    let (fields_a, count_a, counts_a) = with_tables(&mut tables, CTX_A, |t| {
        (t.internal_fields.get(&key).cloned(), t.internal_field_count(Some(key)), t.weak_table_counts())
    });
    assert_eq!(fields_a, None);
    assert_eq!(count_a, 0);
    assert_eq!(counts_a, (1, 1));
    assert!(with_tables(&mut tables, CTX_A, |t| t.registered_weak_slots()).is_empty());
    let due = tables.take_pending_weak_callbacks(CTX_A);
    assert_eq!(due, vec![PendingWeak { callback: 0x11, parameter: 0x22, object_key: key, pass: WeakPass::First }]);
    assert_eq!(with_tables(&mut tables, CTX_B, |t| t.internal_fields.get(&key).cloned()), None);

    tables.remove_object_records(key);
    assert!(tables.take_pending_weak_callbacks(CTX_A).is_empty());
}

#[test]
fn shutting_down_an_unbound_context_changes_nothing() {
    let mut reg = BridgeRegistry::new();
    reg.bind_bridge(CTX_A, RUNTIME);
    reg.set_active_bridge_context(CTX_B);
    assert!(reg.remove_context(CTX_B).is_none());
    assert_eq!(reg.active, Some(CTX_B));
    assert!(reg.has_bridge_for_ctx(CTX_A));
}

#[test]
fn shutdown_context_clears_bridge_and_context_registry() {
    let mut reg = BridgeRegistry::new();
    reg.bind_bridge(CTX_A, RUNTIME);
    reg.insert_root_for_ctx(CTX_A, object(0x10)).unwrap();
    assert_eq!(reg.residual_root_count_for_runtime(RUNTIME), 1);
    reg.remove_context(CTX_A);
    assert!(!reg.has_bridge_for_ctx(CTX_A));
    assert_eq!(reg.states.len(), 0);
    assert_eq!(reg.residual_root_count_for_runtime(RUNTIME), 0);
}

#[test]
fn repeated_shutdown_is_idempotent() {
    let mut reg = BridgeRegistry::new();
    reg.bind_bridge(CTX_A, RUNTIME);
    assert!(reg.remove_context(CTX_A).is_some());
    assert!(reg.remove_context(CTX_A).is_none());
    assert!(!reg.has_bridge_for_ctx(CTX_A));
    assert_eq!(reg.active, None);
}

#[test]
fn bind_keeps_an_existing_state_and_activates_it() {
    let mut reg = BridgeRegistry::new();
    reg.bind_bridge(CTX_A, RUNTIME);
    let id = reg.insert_root_for_ctx(CTX_A, object(0x20)).unwrap();
    reg.bind_bridge(CTX_B, RUNTIME);
    assert_eq!(reg.active, Some(CTX_B));
    reg.bind_bridge(CTX_A, RUNTIME);
    assert_eq!(reg.active, Some(CTX_A));
    assert!(reg.states.get(&CTX_A).unwrap().roots.contains(id));
}

#[test]
fn active_context_falls_back_to_some_bound_context() {
    let mut reg = BridgeRegistry::new();
    reg.bind_bridge(CTX_A, RUNTIME);
    reg.clear_active_bridge_context();
    assert_eq!(reg.active, None);
    assert_eq!(reg.active_ctx_key(), CTX_A);
    reg.set_active_bridge_context(CTX_B);
    assert_eq!(reg.active_ctx_key(), CTX_B);
}

#[test]
fn removing_the_active_context_clears_it() {
    let mut reg = BridgeRegistry::new();
    reg.bind_bridge(CTX_A, RUNTIME);
    reg.bind_bridge(CTX_B, RUNTIME);
    reg.remove_context(CTX_A);
    assert_eq!(reg.active, Some(CTX_B));
    reg.remove_context(CTX_B);
    assert_eq!(reg.active, None);
}

#[test]
fn residual_counts_only_the_runtime_asked_for() {
    let mut reg = BridgeRegistry::new();
    reg.bind_bridge(CTX_A, RUNTIME);
    reg.bind_bridge(CTX_B, 0x2000);
    reg.insert_root_for_ctx(CTX_A, object(0x1)).unwrap();
    reg.insert_root_for_ctx(CTX_A, object(0x2)).unwrap();
    reg.insert_root_for_ctx(CTX_B, object(0x3)).unwrap();
    assert_eq!(reg.residual_root_count_for_runtime(RUNTIME), 2);
    assert_eq!(reg.residual_root_count_for_runtime(0x2000), 1);
    assert_eq!(reg.residual_root_count_for_runtime(0x3000), 0);
}

#[test]
fn context_for_root_id_finds_the_owner() {
    let mut reg = BridgeRegistry::new();
    reg.bind_bridge(CTX_A, RUNTIME);
    reg.bind_bridge(CTX_B, RUNTIME);
    reg.insert_root_for_ctx(CTX_B, object(0x3)).unwrap();
    let id = reg.insert_root_for_ctx(CTX_B, object(0x4)).unwrap();
    assert_eq!(reg.context_for_root_id(id), Some(CTX_B));
    assert_eq!(reg.context_for_root_id(999), None);
    assert_eq!(reg.insert_root_for_ctx(0xC000, object(0x5)), None);
}

#[test]
fn teardown_counts_combine_bridge_and_tables() {
    let mut reg = BridgeRegistry::new();
    reg.bind_bridge(CTX_A, RUNTIME);
    reg.insert_root_for_ctx(CTX_A, object(0x1)).unwrap();
    let c = reg.teardown_counts_for_ctx(CTX_A, 2, 3, 4, 5);
    assert_eq!(c.strong_roots, 1);
    assert_eq!(c.weak_holds, 0);
    assert_eq!(c.weak_callbacks, 2);
    assert_eq!(c.pending_weak, 3);
    assert_eq!(c.strong_persistents, 4);
    assert_eq!(c.weak_persistents, 5);
    let none = reg.teardown_counts_for_ctx(CTX_B, 0, 0, 0, 0);
    assert!(none.is_zero());
}

#[test]
fn object_class_per_runtime() {
    let mut c = v8_compat::V8ObjectClasses::new();
    assert_eq!(c.v8_object_class_for_runtime(RUNTIME), None);
    c.record_class(RUNTIME, 61);
    assert_eq!(c.v8_object_class_for_runtime(RUNTIME), Some(61));
    assert_eq!(c.v8_object_class_for_runtime(0x2000), None);
    c.clear_runtime_v8_object_class(RUNTIME);
    assert_eq!(c.v8_object_class_for_runtime(RUNTIME), None);
}

#[test]
fn context_shutdown_twice_is_once() {
    let mut reg = BridgeRegistry::new();
    let mut tables = ContextTableRegistry::new();
    reg.bind_bridge(CTX_A, RUNTIME);
    reg.bind_bridge(CTX_B, RUNTIME);
    with_tables(&mut tables, CTX_A, |t| t.record_external(0x10, 1));
    with_tables(&mut tables, CTX_B, |t| t.record_external(0x20, 2));
    reg.set_active_bridge_context(CTX_A);

    assert!(shutdown_context_tables(&reg, &mut tables, CTX_A));
    assert!(!tables.has_context_tables(CTX_A));
    assert!(finish_context_shutdown(&mut reg, &mut tables, CTX_A));
    assert!(!reg.has_bridge_for_ctx(CTX_A));
    assert_eq!(reg.active, None);

    reg.set_active_bridge_context(CTX_B);
    assert!(!finish_context_shutdown(&mut reg, &mut tables, CTX_A));
    assert!(!shutdown_context_tables(&reg, &mut tables, CTX_A));
    assert_eq!(reg.active, Some(CTX_B));
    assert!(reg.has_bridge_for_ctx(CTX_B));
    assert!(tables.has_context_tables(CTX_B));
}

#[test]
fn shutting_down_an_unbound_context_keeps_its_tables() {
    let mut reg = BridgeRegistry::new();
    let mut tables = ContextTableRegistry::new();
    with_tables(&mut tables, CTX_A, |t| t.record_external(0x10, 1));
    assert!(!finish_context_shutdown(&mut reg, &mut tables, CTX_A));
    assert!(tables.has_context_tables(CTX_A));
}
