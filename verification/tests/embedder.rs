use v8_compat::{EmbedderFrames, EmbedderScopeGuard};

#[test]
fn nested_scopes_restore_the_outer_frame() {
    let mut f = EmbedderFrames::new();
    let outer = EmbedderScopeGuard::enter(&mut f);
    assert_eq!(f.current_embedder_field0_in_frame(), 0);
    f.set_embedder_field0_in_frame(0xAA);
    let inner = EmbedderScopeGuard::enter(&mut f);
    assert_eq!(f.depth, 2);
    assert_eq!(f.current_embedder_field0_in_frame(), 0);
    f.set_embedder_field0_in_frame(0xBB);
    assert_eq!(f.current_embedder_field0_in_frame(), 0xBB);
    inner.exit(&mut f);
    assert_eq!(f.current_embedder_field0_in_frame(), 0xAA);
    outer.exit(&mut f);
    assert_eq!(f.depth, 0);
    assert!(f.stack.is_empty());
    assert_eq!(f.current_embedder_field0_in_frame(), 0);
}

#[test]
fn outermost_scope_starts_from_an_empty_stack() {
    let mut f = EmbedderFrames::new();
    f.push_embedder_field0_frame();
    f.set_embedder_field0_in_frame(0x1);
    let g = EmbedderScopeGuard::enter(&mut f);
    assert_eq!(f.stack, vec![0]);
    g.exit(&mut f);
    assert!(f.stack.is_empty());
    let g2 = EmbedderScopeGuard;
    g2.exit(&mut f);
    assert_eq!(f.depth, 0);
}

#[test]
fn frame_stack_operations() {
    let mut f = EmbedderFrames::new();
    f.set_embedder_field0_in_frame(0x5);
    assert!(f.stack.is_empty());
    f.push_embedder_field0_frame();
    f.push_embedder_field0_frame();
    f.set_embedder_field0_in_frame(0x5);
    assert_eq!(f.stack, vec![0, 0x5]);
    f.pop_embedder_field0_frame();
    assert_eq!(f.current_embedder_field0_in_frame(), 0);
    f.pop_embedder_field0_frame();
    f.pop_embedder_field0_frame();
    assert!(f.stack.is_empty());
    f.push_embedder_field0_frame();
    f.clear_embedder_field0_stack();
    assert!(f.stack.is_empty());
}
