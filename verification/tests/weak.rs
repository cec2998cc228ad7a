use v8_compat::{second_pass_callback, PendingWeak, WeakDispatch, WeakInvocation, WeakPass};

fn first(cb: usize, param: usize) -> PendingWeak {
    PendingWeak { callback: cb, parameter: param, object_key: param + 0x100, pass: WeakPass::First }
}

#[test]
fn second_passes_run_after_the_whole_batch() {
    let batch = vec![
        first(0xA, 1),
        PendingWeak { callback: 0xB, parameter: 2, object_key: 0, pass: WeakPass::Second },
        first(0xC, 3),
    ];
    let mut d = WeakDispatch::new(batch);
    assert_eq!(d.next_invocation(), Some(WeakInvocation::FirstPass { callback: 0xA, parameter: 1 }));
    d.record_first_pass(true, 0xA2);
    assert_eq!(d.next_invocation(), Some(WeakInvocation::SecondPass { callback: 0xB, parameter: 2 }));
    assert_eq!(d.next_invocation(), Some(WeakInvocation::FirstPass { callback: 0xC, parameter: 3 }));
    d.record_first_pass(true, 0xC2);
    assert_eq!(d.next_invocation(), Some(WeakInvocation::SecondPass { callback: 0xA2, parameter: 1 }));
    assert_eq!(d.next_invocation(), Some(WeakInvocation::SecondPass { callback: 0xC2, parameter: 3 }));
    assert_eq!(d.next_invocation(), None);
}

#[test]
fn declined_or_null_second_passes_are_dropped() {
    let mut d = WeakDispatch::new(vec![first(0xA, 1), first(0xB, 2)]);
    assert!(d.next_invocation().is_some());
    d.record_first_pass(false, 0xA2);
    assert!(d.next_invocation().is_some());
    d.record_first_pass(true, 0);
    assert_eq!(d.next_invocation(), None);
    assert_eq!(second_pass_callback(true, 5), Some(5));
    assert_eq!(second_pass_callback(false, 5), None);
    assert_eq!(second_pass_callback(true, 0), None);
}
