use vstd::prelude::*;

verus! {


/// Engine tag of an object value.
pub const TAG_OBJECT: i64 = -1;
/// Engine tag of a 32-bit integer value.
pub const TAG_INT: i64 = 0;
/// Engine tag of a boolean value.
pub const TAG_BOOL: i64 = 1;
/// Engine tag of `null`.
pub const TAG_NULL: i64 = 2;
/// Engine tag of `undefined`.
pub const TAG_UNDEFINED: i64 = 3;
/// Engine tag of the exception marker.
pub const TAG_EXCEPTION: i64 = 6;

/// A JavaScript value as the engine lays it out: a tag and a 64-bit payload.
/// For objects the payload is the address of the object, which is also the
/// key under which the bridge's side tables know the object.
#[derive(Clone, Copy, Debug, PartialEq, Eq, Structural)]
pub struct JsValue {
    pub tag: i64,
    pub payload: u64,
}

impl JsValue {
    /// The value is an object.
    pub open spec fn is_object_spec(self) -> bool {
        self.tag == TAG_OBJECT
    }

    /// The side-table key of an object value, or `None` for any other value.
    pub open spec fn object_key_spec(self) -> Option<usize> {
        if self.tag == TAG_OBJECT {
            Some(self.payload as usize)
        } else {
            None
        }
    }

    /// Whether the value is an object.
    pub fn is_object(&self) -> (b: bool)
        ensures
            b == self.is_object_spec(),
    {
        self.tag == TAG_OBJECT
    }

    /// The object value whose address is `ptr`.
    pub fn object(ptr: usize) -> (v: JsValue)
        ensures
            v.tag == TAG_OBJECT,
            v.payload == ptr as u64,
            v.object_key_spec() == Some(ptr),
    {
        JsValue { tag: TAG_OBJECT, payload: ptr as u64 }
    }

    /// The value `undefined`.
    pub fn undefined() -> (v: JsValue)
        ensures
            v == (JsValue { tag: TAG_UNDEFINED, payload: 0 }),
    {
        JsValue { tag: TAG_UNDEFINED, payload: 0 }
    }

    /// The value `null`.
    pub fn null() -> (v: JsValue)
        ensures
            v == (JsValue { tag: TAG_NULL, payload: 0 }),
    {
        JsValue { tag: TAG_NULL, payload: 0 }
    }

    /// The boolean value `b`.
    pub fn boolean(b: bool) -> (v: JsValue)
        ensures
            v == (JsValue { tag: TAG_BOOL, payload: if b { 1 } else { 0 } }),
    {
        JsValue { tag: TAG_BOOL, payload: if b { 1 } else { 0 } }
    }
}

/// The 32-bit integer value `val`; the payload holds its two's-complement bits.
pub fn new_int32(val: i32) -> (v: JsValue)
    ensures
        v.tag == TAG_INT,
        v.payload == (val as u32) as u64,
{
    JsValue { tag: TAG_INT, payload: (val as u32) as u64 }
}

/// The side-table key of `obj`: its address when it is an object, else `None`.
pub fn object_ptr_key(obj: JsValue) -> (k: Option<usize>)
    ensures
        k == obj.object_key_spec(),
{
    if obj.is_object() {
        Some(obj.payload as usize)
    } else {
        None
    }
}

} // verus!
