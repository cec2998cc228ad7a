use v8_compat::{
    napi_api_version, napi_node_version_u32, node_abi_version, RasterV8Status, ABI_PROFILE_LABEL,
    NAPI_NODE_VERSION_U32, NODE_MODULE_VERSION, NODE_VERSION,
};

#[test]
fn abi_profile_constants() {
    assert_eq!(NODE_MODULE_VERSION, 137);
    assert_eq!(NODE_VERSION, "24.3.0");
    assert_eq!(ABI_PROFILE_LABEL, "node24-abi137");
}

#[test]
fn version_functions_report_the_abi_profile() {
    assert_eq!(node_abi_version(), 137);
    assert_eq!(napi_api_version(), 10);
    assert_eq!(napi_node_version_u32(), NAPI_NODE_VERSION_U32);
    assert_eq!(napi_node_version_u32(), (24 << 16) | (3 << 8));
}

#[test]
fn status_codes_match_the_c_abi() {
    assert_eq!(RasterV8Status::Success.code(), 0);
    assert_eq!(RasterV8Status::Exception.code(), 1);
    assert_eq!(RasterV8Status::Unsupported.code(), 2);
    assert_eq!(RasterV8Status::WrongThread.code(), 3);
    assert_eq!(RasterV8Status::Error.code(), 4);
}
