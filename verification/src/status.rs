use vstd::prelude::*;

verus! {

/// The native side's per-context state; only ever handled by address.
pub struct RasterV8ContextState {
    _private: [u8; 0],
}

/// The native side's per-isolate state; only ever handled by address.
pub struct RasterV8IsolateState {
    _private: [u8; 0],
}

/// Result code of every bridge entry point handed to the native side.
#[derive(Clone, Copy, Debug, PartialEq, Eq, Structural)]
pub enum RasterV8Status {
    Success,
    Exception,
    Unsupported,
    WrongThread,
    Error,
}

impl RasterV8Status {
    /// The numeric code of the status on the C ABI.
    pub open spec fn spec_code(self) -> i32 {
        match self {
            RasterV8Status::Success => 0,
            RasterV8Status::Exception => 1,
            RasterV8Status::Unsupported => 2,
            RasterV8Status::WrongThread => 3,
            RasterV8Status::Error => 4,
        }
    }

    /// The numeric code of the status on the C ABI.
    pub fn code(self) -> (c: i32)
        ensures
            c == self.spec_code(),
    {
        match self {
            RasterV8Status::Success => 0,
            RasterV8Status::Exception => 1,
            RasterV8Status::Unsupported => 2,
            RasterV8Status::WrongThread => 3,
            RasterV8Status::Error => 4,
        }
    }
}

/// The flag of a configurable property.
pub const PROP_CONFIGURABLE: i32 = 1;
/// The flag of a writable property.
pub const PROP_WRITABLE: i32 = 2;
/// The flag of an enumerable property.
pub const PROP_ENUMERABLE: i32 = 4;
/// Configurable, writable and enumerable.
pub const PROP_C_W_E: i32 = 7;

/// The property flags used to define an own property with the V8
/// attributes `attr` (bit 0 read-only, bit 1 don't-enum, bit 2
/// don't-delete): the flags start from configurable, writable and
/// enumerable, and each attribute that is absent adds its flag again,
/// so every property comes out configurable, writable and enumerable.
pub fn property_flags_for_attr(attr: i32) -> (flags: i32)
    ensures
        flags == PROP_C_W_E | (if attr & 1 == 0 { PROP_WRITABLE } else { 0 }) | (if attr & 2 == 0 {
            PROP_ENUMERABLE
        } else {
            0
        }) | (if attr & 4 == 0 { PROP_CONFIGURABLE } else { 0 }),
        flags == PROP_C_W_E,
{
    let mut flags: i32 = PROP_C_W_E;
    if attr & 1 == 0 {
        flags = flags | PROP_WRITABLE;
    }
    if attr & 2 == 0 {
        flags = flags | PROP_ENUMERABLE;
    }
    if attr & 4 == 0 {
        flags = flags | PROP_CONFIGURABLE;
    }
    assert((7i32 | 2i32) == 7i32 && (7i32 | 4i32) == 7i32 && (7i32 | 1i32) == 7i32 && (7i32 | 0i32) == 7i32)
        by (bit_vector);
    flags
}

/// The kind of error a new exception is made as.
#[derive(Clone, Copy, Debug, PartialEq, Eq, Structural)]
pub enum ExceptionKind {
    Error,
    TypeError,
    RangeError,
}

/// The error kind for the numeric `kind` of the ABI: 1 a `TypeError`, 2 a
/// `RangeError`, anything else a plain `Error`.
pub fn exception_kind(kind: i32) -> (k: ExceptionKind)
    ensures
        k == (if kind == 1 {
            ExceptionKind::TypeError
        } else if kind == 2 {
            ExceptionKind::RangeError
        } else {
            ExceptionKind::Error
        }),
{
    match kind {
        1 => ExceptionKind::TypeError,
        2 => ExceptionKind::RangeError,
        _ => ExceptionKind::Error,
    }
}

/// A value the engine's root list holds at a fixed index.
#[derive(Clone, Copy, Debug, PartialEq, Eq, Structural)]
pub enum Oddball {
    Undefined,
    Null,
    True,
    False,
    EmptyString,
}

/// The oddball at root index `root_index` of V8's root list: 4 and 5 are
/// `undefined` (the hole reads as `undefined`), 6 `null`, 7 `true`, 8
/// `false`, 9 the empty string; any other index names none.
pub fn oddball_for_index(root_index: i32) -> (o: Option<Oddball>)
    ensures
        o == (if root_index == 4 || root_index == 5 {
            Some(Oddball::Undefined)
        } else if root_index == 6 {
            Some(Oddball::Null)
        } else if root_index == 7 {
            Some(Oddball::True)
        } else if root_index == 8 {
            Some(Oddball::False)
        } else if root_index == 9 {
            Some(Oddball::EmptyString)
        } else {
            None::<Oddball>
        }),
{
    match root_index {
        4 => Some(Oddball::Undefined),
        5 => Some(Oddball::Undefined),
        6 => Some(Oddball::Null),
        7 => Some(Oddball::True),
        8 => Some(Oddball::False),
        9 => Some(Oddball::EmptyString),
        _ => None,
    }
}

/// The answer of an own-property lookup that returned `rc`: an exception
/// when negative, else whether the property exists.
pub fn own_property_outcome(rc: i32) -> (r: Result<bool, RasterV8Status>)
    ensures
        rc < 0 ==> r == Err::<bool, RasterV8Status>(RasterV8Status::Exception),
        rc >= 0 ==> r == Ok::<bool, RasterV8Status>(rc > 0),
{
    if rc < 0 {
        Err(RasterV8Status::Exception)
    } else {
        Ok(rc > 0)
    }
}

/// Why deleting an own property failed.
#[derive(Clone, Copy, Debug, PartialEq, Eq, Structural)]
pub enum DeleteFailure {
    /// The target is not an object, so no property of it can be removed.
    NotAnObject,
    /// The property was missing or not configurable.
    NotDeleted,
    /// The engine threw; the exception has to be cleared.
    Exception,
}

/// Whether an own property of `target` may be deleted at all: only an
/// object has own properties to remove, so any other value fails.
pub fn delete_target(target: crate::value::JsValue) -> (r: Result<(), DeleteFailure>)
    ensures
        target.is_object_spec() ==> r is Ok,
        !target.is_object_spec() ==> r == Err::<(), DeleteFailure>(DeleteFailure::NotAnObject),
{
    if target.is_object() {
        Ok(())
    } else {
        Err(DeleteFailure::NotAnObject)
    }
}

/// The result of a property deletion that returned `ret`: done only for 1.
pub fn delete_outcome(ret: i32) -> (r: Result<(), DeleteFailure>)
    ensures
        ret == 1 ==> r is Ok,
        ret == 0 ==> r == Err::<(), DeleteFailure>(DeleteFailure::NotDeleted),
        ret != 0 && ret != 1 ==> r == Err::<(), DeleteFailure>(DeleteFailure::Exception),
{
    match ret {
        1 => Ok(()),
        0 => Err(DeleteFailure::NotDeleted),
        _ => Err(DeleteFailure::Exception),
    }
}

/// The byte count of a string passed with `length`: a negative length
/// means the string ends at its first NUL byte (`None`).
pub fn explicit_length(length: i32) -> (n: Option<usize>)
    ensures
        length < 0 ==> n is None,
        length >= 0 ==> n == Some(length as usize),
{
    if length < 0 {
        None
    } else {
        Some(length as usize)
    }
}

/// The `length` a new array is given: only a positive one is set.
pub fn array_length_to_set(length: i32) -> (n: Option<i32>)
    ensures
        n == (if length > 0 { Some(length) } else { None::<i32> }),
{
    if length > 0 {
        Some(length)
    } else {
        None
    }
}

} // verus!
