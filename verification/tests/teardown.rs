use v8_compat::{
    check_residual, check_strong_persistents_disposed, check_weak_persistents_disposed,
    PassVerdict, TeardownCounts, TeardownError, TeardownLoop, MAX_TEARDOWN_PASSES,
};

fn counts(strong: usize, weak_p: usize) -> TeardownCounts {
    TeardownCounts {
        strong_roots: strong,
        weak_holds: 0,
        weak_callbacks: 0,
        pending_weak: 0,
        strong_persistents: 0,
        weak_persistents: weak_p,
    }
}

#[test]
fn teardown_counts_is_zero() {
    assert!(counts(0, 0).is_zero());
    assert!(!counts(1, 0).is_zero());
    assert!(!counts(0, 1).is_zero());
    let mut c = counts(0, 0);
    c.pending_weak = 1;
    assert!(!c.is_zero());
    assert!(counts(0, 3).only_weak_persistents());
    assert!(!counts(1, 3).only_weak_persistents());
}

#[test]
fn zero_counts_finish_the_loop() {
    let mut l = TeardownLoop::start(counts(5, 0));
    assert_eq!(l.after_pass(counts(0, 0), 0), PassVerdict::Finished);
    assert_eq!(l.pass, 0);
}

#[test]
fn progress_runs_another_pass_and_a_repeat_stalls() {
    let mut l = TeardownLoop::start(counts(5, 0));
    assert_eq!(l.after_pass(counts(5, 0), 0), PassVerdict::NextPass);
    assert_eq!(l.pass, 1);
    assert_eq!(l.after_pass(counts(3, 0), 0), PassVerdict::NextPass);
    assert_eq!(
        l.after_pass(counts(3, 0), 7),
        PassVerdict::Failed(TeardownError::Stalled { counts: counts(3, 0), weak_after_strong: 7 })
    );
}

#[test]
fn only_weak_persistents_dispose_them() {
    let mut l = TeardownLoop::start(counts(5, 0));
    assert_eq!(l.after_pass(counts(0, 2), 0), PassVerdict::DisposeWeak);
    assert_eq!(l.after_weak_dispose(counts(0, 0)), PassVerdict::Finished);
    let mut l = TeardownLoop::start(counts(5, 0));
    assert_eq!(l.after_weak_dispose(counts(0, 1)), PassVerdict::NextPass);
    assert_eq!(l.pass, 1);
    assert_eq!(
        l.after_weak_dispose(counts(0, 1)),
        PassVerdict::Failed(TeardownError::StalledOnWeak { counts: counts(0, 1) })
    );
}

#[test]
fn passes_run_out() {
    let mut l = TeardownLoop::start(counts(1000, 0));
    let mut left = 999usize;
    loop {
        match l.after_pass(counts(left, 0), 0) {
            PassVerdict::NextPass => left -= 1,
            PassVerdict::Failed(e) => {
                assert_eq!(e, TeardownError::Incomplete { counts: counts(left, 0) });
                break;
            }
            other => panic!("unexpected {:?}", other),
        }
    }
    assert_eq!(l.pass, MAX_TEARDOWN_PASSES - 1);
}

#[test]
fn weak_dispose_on_the_last_pass_ends_the_loop() {
    let mut l = TeardownLoop { pass: MAX_TEARDOWN_PASSES - 1, last: counts(0, 9) };
    assert_eq!(l.after_weak_dispose(counts(0, 8)), PassVerdict::Finished);
    assert_eq!(l.pass, MAX_TEARDOWN_PASSES);
}

#[test]
fn final_checks() {
    assert_eq!(check_weak_persistents_disposed(counts(0, 0)), Ok(()));
    assert_eq!(
        check_weak_persistents_disposed(counts(0, 2)),
        Err(TeardownError::WeakPersistentsRemain { remaining: 2 })
    );
    let mut c = counts(0, 0);
    assert_eq!(check_strong_persistents_disposed(c), Ok(()));
    c.strong_persistents = 3;
    assert_eq!(
        check_strong_persistents_disposed(c),
        Err(TeardownError::StrongPersistentsRemain { remaining: 3 })
    );
    assert_eq!(check_residual(counts(0, 0), true), Ok(()));
    assert_eq!(check_residual(counts(1, 0), false), Err(TeardownError::ResidualBeforeGc { counts: counts(1, 0) }));
    assert_eq!(check_residual(counts(1, 0), true), Err(TeardownError::Residual { counts: counts(1, 0) }));
}
