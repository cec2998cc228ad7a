use v8_compat::{
    accessor_outcome, is_construct_call, trampoline_outcome, JsValue, RasterV8Status,
    TrampolineReturn, TrampolineStep,
};
use TrampolineStep::{Drop, Read};

#[test]
fn exception_releases_everything() {
    let o = trampoline_outcome(RasterV8Status::Success, true, true, 10, 11, &vec![12, 13], 14);
    assert_eq!(o.steps, vec![Drop(10), Drop(11), Drop(12), Drop(13)]);
    assert_eq!(o.ret, TrampolineReturn::PendingException);
    assert!(o.free_instance);
    let o = trampoline_outcome(RasterV8Status::Exception, false, false, 10, 0, &vec![12], 0);
    assert_eq!(o.steps, vec![Drop(10), Drop(12)]);
    assert!(!o.free_instance);
}

#[test]
fn other_failures_return_undefined_without_steps() {
    let o = trampoline_outcome(RasterV8Status::Error, false, true, 10, 11, &vec![12], 14);
    assert!(o.steps.is_empty());
    assert_eq!(o.ret, TrampolineReturn::Undefined);
}

#[test]
fn construct_returns_the_instance() {
    let o = trampoline_outcome(RasterV8Status::Success, false, true, 10, 11, &vec![], 14);
    assert_eq!(o.steps, vec![Drop(10), Drop(11), Drop(14)]);
    assert_eq!(o.ret, TrampolineReturn::Instance);
    let o = trampoline_outcome(RasterV8Status::Success, false, true, 10, 11, &vec![], 10);
    assert_eq!(o.steps, vec![Drop(10), Drop(11)]);
}

#[test]
fn call_returns_result_receiver_or_undefined() {
    let o = trampoline_outcome(RasterV8Status::Success, false, false, 10, 0, &vec![12], 14);
    assert_eq!(o.steps, vec![Drop(10), Drop(12), Read(14), Drop(14)]);
    assert_eq!(o.ret, TrampolineReturn::ReadValue);
    let o = trampoline_outcome(RasterV8Status::Success, false, false, 10, 0, &vec![12], 10);
    assert_eq!(o.steps, vec![Read(10), Drop(10), Drop(12)]);
    assert_eq!(o.ret, TrampolineReturn::ReadValue);
    let o = trampoline_outcome(RasterV8Status::Success, false, false, 10, 0, &vec![], 0);
    assert_eq!(o.steps, vec![Drop(10)]);
    assert_eq!(o.ret, TrampolineReturn::Undefined);
}

#[test]
fn construct_calls_need_a_receiver() {
    assert!(is_construct_call(true, JsValue::object(0x1)));
    assert!(!is_construct_call(true, JsValue::undefined()));
    assert!(!is_construct_call(false, JsValue::object(0x1)));
}

#[test]
fn accessor_results() {
    let o = accessor_outcome(RasterV8Status::Success, 3, 4);
    assert_eq!(o.steps, vec![Drop(3), Read(4), Drop(4)]);
    assert_eq!(o.ret, TrampolineReturn::ReadValue);
    let o = accessor_outcome(RasterV8Status::Success, 3, 0);
    assert_eq!(o.steps, vec![Drop(3)]);
    assert_eq!(o.ret, TrampolineReturn::Undefined);
    let o = accessor_outcome(RasterV8Status::Exception, 3, 4);
    assert_eq!(o.ret, TrampolineReturn::Undefined);
}
