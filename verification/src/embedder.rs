use vstd::prelude::*;

verus! {

/// The state of an embedder frame stack: the scope depth and the field-0
/// pointer of each open frame, innermost last.
pub open spec fn after_enter(depth: u32, stack: Seq<usize>) -> (u32, Seq<usize>) {
    let base = if depth == 0 { Seq::<usize>::empty() } else { stack };
    ((depth + 1) as u32, base.push(0usize))
}

/// The state after leaving the innermost scope.
pub open spec fn after_exit(depth: u32, stack: Seq<usize>) -> (u32, Seq<usize>) {
    let popped = if stack.len() > 0 { stack.drop_last() } else { stack };
    let next: u32 = if depth > 0 { (depth - 1) as u32 } else { 0 };
    (next, if next == 0 { Seq::<usize>::empty() } else { popped })
}

/// The field-0 pointer of the innermost frame, `0` without a frame.
pub open spec fn current_field0(stack: Seq<usize>) -> usize {
    if stack.len() > 0 { stack.last() } else { 0 }
}

/// Per-thread frames that carry the embedder pointer (internal field 0) of
/// the receiver of the native callback under way, one frame per scope.
pub struct EmbedderFrames {
    pub depth: u32,
    pub stack: Vec<usize>,
}

impl EmbedderFrames {
    /// No scope open.
    pub fn new() -> (f: EmbedderFrames)
        ensures
            f.depth == 0,
            f.stack@ == Seq::<usize>::empty(),
    {
        EmbedderFrames { depth: 0, stack: Vec::new() }
    }

    /// Drops every frame.
    pub fn clear_embedder_field0_stack(&mut self)
        ensures
            final(self).stack@ == Seq::<usize>::empty(),
            final(self).depth == old(self).depth,
    {
        self.stack.clear();
    }

    /// Opens a frame with no pointer.
    pub fn push_embedder_field0_frame(&mut self)
        ensures
            final(self).stack@ == old(self).stack@.push(0usize),
            final(self).depth == old(self).depth,
    {
        self.stack.push(0);
    }

    /// Closes the innermost frame, if any.
    pub fn pop_embedder_field0_frame(&mut self)
        ensures
            final(self).stack@ == (if old(self).stack@.len() > 0 {
                old(self).stack@.drop_last()
            } else {
                old(self).stack@
            }),
            final(self).depth == old(self).depth,
    {
        self.stack.pop();
    }

    /// Stores `ptr` in the innermost frame; without a frame nothing changes.
    pub fn set_embedder_field0_in_frame(&mut self, ptr: usize)
        ensures
            final(self).stack@ == (if old(self).stack@.len() > 0 {
                old(self).stack@.update(old(self).stack@.len() - 1, ptr)
            } else {
                old(self).stack@
            }),
            final(self).depth == old(self).depth,
    {
        let n = self.stack.len();
        if n > 0 {
            self.stack.set(n - 1, ptr);
        }
    }

    /// The pointer of the innermost frame, `0` without a frame.
    pub fn current_embedder_field0_in_frame(&self) -> (p: usize)
        ensures
            p == current_field0(self.stack@),
    {
        let n = self.stack.len();
        if n > 0 {
            self.stack[n - 1]
        } else {
            0
        }
    }
}

/// An open embedder scope. Opening the outermost scope starts from an empty
/// stack; closing it leaves the stack empty again.
pub struct EmbedderScopeGuard;

impl EmbedderScopeGuard {
    /// Opens a scope: one level deeper, with a fresh frame.
    pub fn enter(frames: &mut EmbedderFrames) -> (g: EmbedderScopeGuard)
        requires
            old(frames).depth < u32::MAX,
        ensures
            (final(frames).depth, final(frames).stack@) == after_enter(old(frames).depth, old(frames).stack@),
    {
        if frames.depth == 0 {
            frames.clear_embedder_field0_stack();
        }
        frames.depth = frames.depth + 1;
        frames.push_embedder_field0_frame();
        EmbedderScopeGuard
    }

    /// Closes the scope: its frame goes, and the level drops by one (never
    /// below zero); at level zero the stack is emptied.
    pub fn exit(self, frames: &mut EmbedderFrames)
        ensures
            (final(frames).depth, final(frames).stack@) == after_exit(old(frames).depth, old(frames).stack@),
    {
        frames.pop_embedder_field0_frame();
        let next = if frames.depth > 0 { frames.depth - 1 } else { 0 };
        frames.depth = next;
        if next == 0 {
            frames.clear_embedder_field0_stack();
        }
    }
}

/// Opening a scope and closing it restores the enclosing scope's frames
/// exactly; around the outermost scope the stack ends up empty.
pub proof fn lemma_scope_round_trip(depth: u32, stack: Seq<usize>)
    requires
        depth < u32::MAX,
    ensures
        after_exit(after_enter(depth, stack).0, after_enter(depth, stack).1) == (
            depth,
            if depth == 0 { Seq::<usize>::empty() } else { stack },
        ),
{
    let (d1, s1) = after_enter(depth, stack);
    assert(s1.drop_last() =~= (if depth == 0 { Seq::<usize>::empty() } else { stack }));
}

/// A freshly opened scope starts without an embedder pointer.
pub proof fn lemma_enter_starts_empty(depth: u32, stack: Seq<usize>)
    requires
        depth < u32::MAX,
    ensures
        current_field0(after_enter(depth, stack).1) == 0,
{
}

/// What was stored in the innermost frame is what the frame reports.
pub proof fn lemma_set_then_current(stack: Seq<usize>, ptr: usize)
    requires
        stack.len() > 0,
    ensures
        current_field0(stack.update(stack.len() - 1, ptr)) == ptr,
{
}

} // verus!
