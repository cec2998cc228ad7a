use v8_compat::{
    array_length_to_set, delete_outcome, delete_target, exception_kind, explicit_length, new_int32,
    object_ptr_key, oddball_for_index, own_property_outcome, property_flags_for_attr,
    DeleteFailure, ExceptionKind, JsValue, Oddball, RasterV8Status, PROP_C_W_E, TAG_INT,
    TAG_OBJECT,
};

#[test]
fn every_defined_property_is_configurable_writable_enumerable() {
    for attr in 0..8 {
        assert_eq!(property_flags_for_attr(attr), PROP_C_W_E);
    }
    assert_eq!(PROP_C_W_E, 7);
}

#[test]
fn exception_kinds() {
    assert_eq!(exception_kind(1), ExceptionKind::TypeError);
    assert_eq!(exception_kind(2), ExceptionKind::RangeError);
    assert_eq!(exception_kind(0), ExceptionKind::Error);
    assert_eq!(exception_kind(-3), ExceptionKind::Error);
}

#[test]
fn oddball_indices() {
    assert_eq!(oddball_for_index(4), Some(Oddball::Undefined));
    assert_eq!(oddball_for_index(5), Some(Oddball::Undefined));
    assert_eq!(oddball_for_index(6), Some(Oddball::Null));
    assert_eq!(oddball_for_index(7), Some(Oddball::True));
    assert_eq!(oddball_for_index(8), Some(Oddball::False));
    assert_eq!(oddball_for_index(9), Some(Oddball::EmptyString));
    assert_eq!(oddball_for_index(3), None);
    assert_eq!(oddball_for_index(10), None);
}

#[test]
fn engine_return_codes() {
    assert_eq!(own_property_outcome(-1), Err(RasterV8Status::Exception));
    assert_eq!(own_property_outcome(0), Ok(false));
    assert_eq!(own_property_outcome(1), Ok(true));
    assert_eq!(delete_outcome(1), Ok(()));
    assert_eq!(delete_outcome(0), Err(DeleteFailure::NotDeleted));
    assert_eq!(delete_outcome(-1), Err(DeleteFailure::Exception));
    assert_eq!(explicit_length(-1), None);
    assert_eq!(explicit_length(5), Some(5));
    assert_eq!(array_length_to_set(0), None);
    assert_eq!(array_length_to_set(3), Some(3));
}

#[test]
fn values_and_object_keys() {
    let v = new_int32(-1);
    assert_eq!(v.tag, TAG_INT);
    assert_eq!(v.payload, 0xFFFF_FFFF);
    assert_eq!(object_ptr_key(v), None);
    let o = JsValue::object(0x1234);
    assert_eq!(o.tag, TAG_OBJECT);
    assert_eq!(object_ptr_key(o), Some(0x1234));
    assert!(o.is_object());
    assert!(!JsValue::null().is_object());
}

#[test]
fn deleting_from_a_non_object_fails() {
    assert_eq!(delete_target(JsValue::object(0x40)), Ok(()));
    assert_eq!(delete_target(JsValue::undefined()), Err(DeleteFailure::NotAnObject));
    assert_eq!(delete_target(new_int32(3)), Err(DeleteFailure::NotAnObject));
}
