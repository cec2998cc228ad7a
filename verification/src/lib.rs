//! Bookkeeping core of a QuickJS-backed V8 compatibility bridge.
//!
//! The library keeps, per JavaScript context, the tables that tie the ids
//! handed to native addons ("roots") to JavaScript values, the weak holds
//! that keep objects alive until their weak callbacks ran, the registry of
//! function templates, the internal-field tables of wrapped objects, and the
//! counters that decide when a context has been torn down completely.
//! Calls into the JavaScript engine itself are made by the embedding code;
//! the library decides what those calls are and records their results.

pub mod abi;
pub mod bridge_state;
pub mod classes;
pub mod context_tables;
pub mod embedder;
pub mod fields;
pub mod laws;
mod maps;
pub mod registry;
pub mod roots;
pub mod status;
pub mod tables;
pub mod teardown;
pub mod trampoline;
pub mod value;
pub mod weak;

pub use abi::{
    napi_api_version, napi_node_version_u32, node_abi_version, ABI_PROFILE_LABEL,
    NAPI_API_VERSION, NAPI_NODE_VERSION_U32, NODE_MAJOR_VERSION, NODE_MINOR_VERSION,
    NODE_MODULE_VERSION, NODE_PATCH_VERSION, NODE_VERSION,
};
pub use bridge_state::{root_id_for_ptr, BridgeState, NewTargetSource, Restrong};
pub use classes::V8ObjectClasses;
pub use context_tables::{finish_context_shutdown, shutdown_context_tables, ContextTableRegistry};
pub use embedder::{EmbedderFrames, EmbedderScopeGuard};
pub use fields::{internal_field_get, internal_field_set};
pub use registry::BridgeRegistry;
pub use roots::{RootEntry, RootTable};
pub use status::{
    array_length_to_set, delete_outcome, delete_target, exception_kind, explicit_length, oddball_for_index,
    own_property_outcome, property_flags_for_attr, DeleteFailure, ExceptionKind, Oddball,
    RasterV8ContextState, RasterV8IsolateState, RasterV8Status, PROP_CONFIGURABLE, PROP_C_W_E, PROP_ENUMERABLE, PROP_WRITABLE,
};
pub use tables::{ContextTables, PendingWeak, WeakPass, WeakPhase, WeakSlot};
pub use teardown::{
    check_residual, check_strong_persistents_disposed, check_weak_persistents_disposed,
    PassVerdict, TeardownCounts, TeardownError, TeardownLoop, MAX_TEARDOWN_PASSES,
};
pub use trampoline::{
    accessor_outcome, is_construct_call, trampoline_outcome, TrampolineOutcome, TrampolineReturn,
    TrampolineStep,
};
pub use value::{
    new_int32, object_ptr_key, JsValue, TAG_BOOL, TAG_EXCEPTION, TAG_INT, TAG_NULL, TAG_OBJECT,
    TAG_UNDEFINED,
};
pub use weak::{second_pass_callback, WeakDispatch, WeakInvocation};
