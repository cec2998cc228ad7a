use vstd::prelude::*;

verus! {

/// `NODE_MODULE_VERSION` of the Node release whose V8 ABI the bridge implements.
pub const NODE_MODULE_VERSION: u32 = 137;

/// Major version of the Node release whose ABI the bridge implements.
pub const NODE_MAJOR_VERSION: u32 = 24;

/// Minor version of the Node release whose ABI the bridge implements.
pub const NODE_MINOR_VERSION: u32 = 3;

/// Patch version of the Node release whose ABI the bridge implements.
pub const NODE_PATCH_VERSION: u32 = 0;

/// The Node release whose ABI the bridge implements, as text.
pub const NODE_VERSION: &'static str = "24.3.0";

/// Label of the ABI profile: Node major version and module version.
pub const ABI_PROFILE_LABEL: &'static str = "node24-abi137";

/// The N-API version that Node 24.3.0 reports.
pub const NAPI_API_VERSION: u32 = 10;

/// A Node version packed into one integer: major in the bits from 16 up,
/// minor in bits 8..16, patch in bits 0..8.
pub open spec fn packed_node_version(major: nat, minor: nat, patch: nat) -> nat {
    major * 65536 + minor * 256 + patch
}

/// The Node version the bridge reports, packed by `packed_node_version`.
pub const NAPI_NODE_VERSION_U32: u32 = 0x0018_0300;

/// The module version that native addons must be compiled against.
pub fn node_abi_version() -> (v: u32)
    ensures
        v == NODE_MODULE_VERSION,
        v == 137,
{
    NODE_MODULE_VERSION
}

/// The Node version reported to N-API addons, packed.
pub fn napi_node_version_u32() -> (v: u32)
    ensures
        v == NAPI_NODE_VERSION_U32,
        v as nat == packed_node_version(
            NODE_MAJOR_VERSION as nat,
            NODE_MINOR_VERSION as nat,
            NODE_PATCH_VERSION as nat,
        ),
{
    NAPI_NODE_VERSION_U32
}

/// The N-API version reported to addons.
pub fn napi_api_version() -> (v: u32)
    ensures
        v == NAPI_API_VERSION,
        v == 10,
{
    NAPI_API_VERSION
}

} // verus!
