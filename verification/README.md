# v8_compat

The bookkeeping core of a QuickJS-backed V8 compatibility bridge, verified
with Verus, and the engine glue around it.

- `src/` is the verified library. It holds, per JavaScript context, the root
  table (non-zero ids that native addons hold for JavaScript values), the
  weak holds and weak roots, the function-template roots, the internal-field
  and weak-callback side tables (and their per-context registry, including
  what happens to them when an object is collected), the embedder frames of native callbacks, the
  registry of contexts, and the decisions of the callback trampolines, of
  weak-callback dispatch and of the per-context teardown loop. Engine values
  appear as `JsValue` (a tag and a 64-bit payload).
- `app/` is the glue: the C ABI entry points handed to the native shim, the
  per-thread state, and every call into QuickJS and into the native shim.
- `tests/` exercises the library.
