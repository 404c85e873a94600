# ep_main — verified core of a Processing ↔ wgpu compute/render bridge

The bridge lets a Processing sketch run WGSL (or Slang-generated WGSL) compute and render
passes on the GPU. Everything it decides before talking to the GPU is in `src/` and proved
with Verus; `app/` holds the JNI entry points, the wgpu calls and the platform glue.

## `src/` (verified)

| module | what it holds |
|---|---|
| `reflect` | the shader model, views of the reflected information, and reflection itself: bindings of group 0 with their kinds, uniform/storage struct layouts, entry points and the bindings each uses |
| `frontend` | parsing and validating WGSL with naga, and reading the validated module into the plain model `reflect` works on (the only calls into naga) |
| `names` | Slang name demangling, exact-then-demangled name resolution, Levenshtein suggestions |
| `engine` | `set(name, resource)` checks, completeness before a dispatch or draw, vertex/fragment pairing with merged visibility, member writes by name, entry lookup |
| `staging` | little-endian member writes into staging bytes, values queued before the first bind, the uniform ring-slot bookkeeping |
| `buffer` | a storage buffer's CPU side: stride, element layout, mirror, dirty elements, queued values, raw writes, upload ranges |
| `runs` | coalescing dirty element numbers into maximal runs |
| `bind_group` | the bind-group plan: used bindings in binding-number order (a verified stable sort), layout slots, bound resources, uniform order |
| `commands` | dispatch sizes, indirect arguments, copies, texture uploads, index buffers, scissor rectangles, pass merging, pipeline settings, timestamp slots, releasing a resource |
| `bridge` | what the JNI layer checks and converts: format numbers, texture and cube sizes, array ranges, value and pixel encodings |
| `cpu_render` | the integer side of the CPU renderer: LUT table positions and tracing statistics (the floating-point renderer itself is not part of this crate) |
| `text` | string helpers: joining, equality, decimal rendering |

## `app/`

`lib.rs` (JNI entry points), `engine.rs` (wgpu resources, pipelines, passes, frames),
`platform.rs` and `jawt.rs` (borrowing the AWT drawing surface).
