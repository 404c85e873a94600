use ep_main::names::{demangle, resolve_name, suggest};
use ep_main::reflect::{
    reflect, reflect_model, BindingKind, EntryModel, GlobalModel, MemberKind, ModuleModel, RenderEntry, ShaderStage,
    SpaceModel, StructMemberModel, TextureFormat, TypeModel, TypeShape,
};

const SRC: &str = r#"
struct Params { t: f32, gravity: vec2<f32>, n: u32 };
struct Boid { pos: vec2<f32>, vel: vec2<f32> };
@group(0) @binding(0) var<uniform> params: Params;
@group(0) @binding(1) var<storage, read> src: array<Boid>;
@group(0) @binding(2) var<storage, read_write> dst: array<Boid>;
@group(0) @binding(3) var canvas: texture_storage_2d<rgba8unorm, write>;
fn helper() -> f32 { return params.t; }
@compute @workgroup_size(64)
fn update(@builtin(global_invocation_id) id: vec3<u32>) {
  if (id.x >= arrayLength(&src)) { return; }
  dst[id.x].pos = src[id.x].pos + src[id.x].vel * helper();
}
@compute @workgroup_size(8, 8, 1)
fn splat(@builtin(global_invocation_id) id: vec3<u32>) {
  textureStore(canvas, vec2<i32>(id.xy), vec4<f32>(1.0));
}
"#;

const RENDER_SRC: &str = r#"
struct Params { size: vec2<f32> };
struct Boid { pos: vec2<f32>, vel: vec2<f32> };
@group(0) @binding(0) var<uniform> params: Params;
@group(0) @binding(1) var<storage, read> boids: array<Boid>;
struct VOut { @builtin(position) pos: vec4<f32>, @location(0) local: vec2<f32> };
@vertex
fn vsMain(@builtin(vertex_index) vid: u32, @builtin(instance_index) iid: u32) -> VOut {
  var o: VOut;
  o.pos = vec4<f32>(boids[iid].pos / params.size, 0.0, 1.0);
  o.local = vec2<f32>(0.0);
  return o;
}
@fragment
fn fsMain(v: VOut) -> @location(0) vec4<f32> {
  return vec4<f32>(v.local, params.size.x * 0.0, 1.0);
}
"#;

#[test]
fn entry_points_and_workgroup_size() {
    let info = reflect(SRC).unwrap();
    let update = info.entry_points.iter().find(|e| e.name == "update").unwrap();
    assert_eq!(update.workgroup_size, [64, 1, 1]);
    let splat = info.entry_points.iter().find(|e| e.name == "splat").unwrap();
    assert_eq!(splat.workgroup_size, [8, 8, 1]);
}

#[test]
fn per_entry_used_bindings_includes_helper_usage() {
    let info = reflect(SRC).unwrap();
    let update = info.entry_points.iter().find(|e| e.name == "update").unwrap();
    let names: Vec<&str> = update
        .used_bindings
        .iter()
        .map(|&i| info.bindings[i].name.as_str())
        .collect();
    assert!(names.contains(&"params"));
    assert!(names.contains(&"src"));
    assert!(names.contains(&"dst"));
    assert!(!names.contains(&"canvas"));
}

#[test]
fn uniform_layout_has_padding_aware_offsets() {
    let info = reflect(SRC).unwrap();
    let BindingKind::Uniform { layout } = &info.bindings.iter().find(|b| b.name == "params").unwrap().kind
    else {
        panic!()
    };
    assert_eq!(layout.size, 24);
    let g = layout.members.iter().find(|m| m.name == "gravity").unwrap();
    assert_eq!(g.offset, 8);
    assert!(matches!(g.kind, MemberKind::VecF(2)));
}

#[test]
fn uniform_matrix_members_are_mat4() {
    let src = r#"
struct MatStorage { @align(16) data: array<vec4<f32>, 4> };
struct P { a: f32, @align(16) m: MatStorage, n: mat4x4<f32> };
@group(0) @binding(0) var<uniform> params: P;
@compute @workgroup_size(1) fn main() { let x = params.a; }
"#;
    let info = reflect(src).unwrap();
    let BindingKind::Uniform { layout } = &info.bindings[0].kind else {
        panic!()
    };
    let m = layout.members.iter().find(|m| m.name == "m").unwrap();
    assert_eq!(m.offset, 16);
    assert!(matches!(m.kind, MemberKind::Mat4));
    let n = layout.members.iter().find(|m| m.name == "n").unwrap();
    assert_eq!(n.offset, 80);
    assert!(matches!(n.kind, MemberKind::Mat4));
    assert_eq!(layout.size, 144);
}

#[test]
fn storage_stride_and_access() {
    let info = reflect(SRC).unwrap();
    let BindingKind::Storage { read_only, stride, .. } =
        &info.bindings.iter().find(|b| b.name == "src").unwrap().kind
    else {
        panic!()
    };
    assert!(*read_only);
    assert_eq!(*stride, 16);
}

#[test]
fn storage_element_layout_is_exposed() {
    let info = reflect(SRC).unwrap();
    let BindingKind::Storage { layout, .. } =
        &info.bindings.iter().find(|b| b.name == "src").unwrap().kind
    else {
        panic!()
    };
    let layout = layout.as_ref().expect("Boid の要素レイアウトが取れること");
    assert_eq!(layout.size, 16);
    let vel = layout.members.iter().find(|m| m.name == "vel").unwrap();
    assert_eq!(vel.offset, 8);
    assert!(matches!(vel.kind, MemberKind::VecF(2)));
}

#[test]
fn storage_element_layout_has_padding_aware_offsets() {
    let src = r#"
struct Object { @align(16) ty: i32, @align(16) position: vec3<f32>, @align(4) param0: f32 };
@group(0) @binding(0) var<storage, read_write> objects: array<Object>;
@compute @workgroup_size(1) fn m() { objects[0].param0 = 1.0; }
"#;
    let info = reflect(src).unwrap();
    let BindingKind::Storage { stride, layout, .. } = &info.bindings[0].kind else {
        panic!()
    };
    assert_eq!(*stride, 32);
    let layout = layout.as_ref().unwrap();
    assert_eq!(layout.size, 32);
    let by = |n: &str| layout.members.iter().find(|m| m.name == n).unwrap().offset;
    assert_eq!(by("ty"), 0);
    assert_eq!(by("position"), 16);
    assert_eq!(by("param0"), 28);
}

#[test]
fn scalar_element_storage_has_no_layout() {
    let src = r#"
@group(0) @binding(0) var<storage, read_write> data: array<f32>;
@compute @workgroup_size(1) fn m() { data[0] = 1.0; }
"#;
    let info = reflect(src).unwrap();
    let BindingKind::Storage { stride, layout, .. } = &info.bindings[0].kind else {
        panic!()
    };
    assert_eq!(*stride, 4);
    assert!(layout.is_none());
}

#[test]
fn storage_texture_format() {
    let info = reflect(SRC).unwrap();
    let BindingKind::StorageTexture { format, .. } =
        &info.bindings.iter().find(|b| b.name == "canvas").unwrap().kind
    else {
        panic!()
    };
    assert_eq!(*format, TextureFormat::Rgba8Unorm);
}

#[test]
fn parse_error_is_readable() {
    let err = reflect("@compute fn broken(){").unwrap_err();
    assert!(err.contains("シェーダ"));
}

#[test]
fn cube_texture_is_recognized() {
    let src = "@group(0) @binding(0) var env: texture_cube<f32>;\n@group(0) @binding(1) var s: sampler;\n@group(0) @binding(2) var flat: texture_2d<f32>;\n@fragment fn m() -> @location(0) vec4<f32> { return textureSampleLevel(env, s, vec3<f32>(0.0, 1.0, 0.0), 0.0) + textureSampleLevel(flat, s, vec2<f32>(0.5), 0.0); }";
    let info = reflect(src).unwrap();
    let kind = |n: &str| &info.bindings.iter().find(|b| b.name == n).unwrap().kind;
    assert!(matches!(kind("env"), BindingKind::SampledTexture { cube: true }));
    assert!(matches!(kind("flat"), BindingKind::SampledTexture { cube: false }));
}

#[test]
fn nonzero_group_is_rejected() {
    let src = "struct P { v: f32 };\n@group(1) @binding(0) var<uniform> p: P;\n@compute @workgroup_size(1) fn m() { let x = p.v; }";
    assert!(reflect(src).unwrap_err().contains("group(0)"));
}

#[test]
fn suggest_gives_closest() {
    assert!(suggest("srcc", &["src", "dst", "params"]).contains("src"));
}

#[test]
fn demangle_strips_slang_suffix() {
    assert_eq!(demangle("src_0"), "src");
    assert_eq!(demangle("feed_12"), "feed");
    assert_eq!(demangle("src"), "src");
    assert_eq!(demangle("vec_2d"), "vec_2d");
    assert_eq!(demangle("_0"), "_0");
}

#[test]
fn resolve_prefers_exact_then_demangled() {
    assert_eq!(resolve_name(&["src_0", "dst_0"], "src"), Ok(0));
    assert_eq!(resolve_name(&["src", "src_0"], "src"), Ok(0));
    assert!(resolve_name(&["src_0", "src_1"], "src").unwrap_err().is_some());
    assert!(resolve_name(&["a", "b"], "c").unwrap_err().is_none());
}

#[test]
fn render_entries_are_collected_with_stage() {
    let info = reflect(RENDER_SRC).unwrap();
    let vs = info.render_entries.iter().find(|e| e.name == "vsMain").unwrap();
    assert_eq!(vs.stage, ShaderStage::Vertex);
    let fs = info.render_entries.iter().find(|e| e.name == "fsMain").unwrap();
    assert_eq!(fs.stage, ShaderStage::Fragment);
    assert!(info.entry_points.iter().all(|e| e.name != "vsMain"));
}

#[test]
fn render_entry_used_bindings_are_per_stage() {
    let info = reflect(RENDER_SRC).unwrap();
    let names = |e: &RenderEntry| -> Vec<&str> {
        e.used_bindings.iter().map(|&i| info.bindings[i].name.as_str()).collect()
    };
    let vs = info.render_entries.iter().find(|e| e.name == "vsMain").unwrap();
    assert!(names(vs).contains(&"params"));
    assert!(names(vs).contains(&"boids"));
    let fs = info.render_entries.iter().find(|e| e.name == "fsMain").unwrap();
    assert!(names(fs).contains(&"params"));
    assert!(!names(fs).contains(&"boids"));
}

#[test]
fn compute_only_source_has_no_render_entries() {
    let info = reflect(SRC).unwrap();
    assert!(info.render_entries.is_empty());
}

#[test]
fn uniform_must_be_a_struct() {
    let src = "@group(0) @binding(0) var<uniform> k: f32;\n@compute @workgroup_size(1) fn m() { let x = k; }";
    assert_eq!(
        reflect(src).unwrap_err(),
        "uniform 'k' は struct にしてください（スカラー単体の uniform は非対応）"
    );
}

#[test]
fn unsupported_storage_texture_format_is_named() {
    let src = "@group(0) @binding(0) var img: texture_storage_2d<rgba32uint, write>;\n@compute @workgroup_size(1) fn m() { textureStore(img, vec2<i32>(0, 0), vec4<u32>(1u)); }";
    assert_eq!(
        reflect(src).unwrap_err(),
        "storage texture 'img' のフォーマット Rgba32Uint は非対応です（rgba8unorm / rgba16float / rgba32float / rg32float / r32float）"
    );
}

#[test]
fn texture_arrays_are_refused() {
    let src = "@group(0) @binding(0) var t: texture_2d_array<f32>;\n@group(0) @binding(1) var s: sampler;\n@fragment fn m() -> @location(0) vec4<f32> { return textureSampleLevel(t, s, vec2<f32>(0.5), 0, 0.0); }";
    assert_eq!(reflect(src).unwrap_err(), "texture 't' は 2D かキューブ（配列なし）のみ対応です");
}

#[test]
fn unsupported_member_type_is_printed() {
    let src = "struct P { v: vec3<i32> };\n@group(0) @binding(0) var<uniform> p: P;\n@compute @workgroup_size(1) fn m() { let x = p.v; }";
    let err = reflect(src).unwrap_err();
    assert!(err.starts_with("uniform 'p.v' の型は非対応です（f32/i32/u32/vecNf/mat4x4f のみ）: "), "{err}");
    assert!(err.contains("Sint"), "{err}");
}

#[test]
fn validation_error_is_reported() {
    let src = "@compute @workgroup_size(1) fn m() { let x: f32 = 1u; }";
    let err = reflect(src).unwrap_err();
    assert!(err.starts_with("シェーダの"), "{err}");
}

#[test]
fn model_of_a_module_is_reflected() {
    let model = ModuleModel {
        types: vec![
            TypeModel { shape: TypeShape::Scalar { kind: "Float".to_string(), width: 4 }, debug: "f32".to_string() },
            TypeModel {
                shape: TypeShape::Struct {
                    members: vec![StructMemberModel { name: Some("gain".to_string()), ty: 0, offset: 0 }],
                    span: 4,
                },
                debug: "P".to_string(),
            },
            TypeModel { shape: TypeShape::Sampler, debug: "sampler".to_string() },
        ],
        globals: vec![
            GlobalModel { name: Some("scratch".to_string()), binding: None, space: SpaceModel::Other, ty: 0 },
            GlobalModel { name: Some("p".to_string()), binding: Some((0, 4)), space: SpaceModel::Uniform, ty: 1 },
            GlobalModel { name: Some("s".to_string()), binding: Some((0, 2)), space: SpaceModel::Other, ty: 2 },
        ],
        entries: vec![
            EntryModel { name: "main".to_string(), stage: ShaderStage::Compute, workgroup_size: [4, 2, 1], uses: vec![true, false, true] },
            EntryModel { name: "fs".to_string(), stage: ShaderStage::Fragment, workgroup_size: [0, 0, 0], uses: vec![false, true, false] },
        ],
    };
    let info = reflect_model(&model).unwrap();
    assert_eq!(info.bindings.len(), 2);
    assert_eq!(info.bindings[0].name, "p");
    assert_eq!(info.bindings[0].binding, 4);
    let BindingKind::Uniform { layout } = &info.bindings[0].kind else { panic!() };
    assert_eq!(layout.size, 4);
    assert_eq!(layout.members[0].name, "gain");
    assert!(matches!(layout.members[0].kind, MemberKind::F32));
    assert!(matches!(info.bindings[1].kind, BindingKind::Sampler));
    assert_eq!(info.entry_points[0].workgroup_size, [4, 2, 1]);
    assert_eq!(info.entry_points[0].used_bindings, vec![1]);
    assert_eq!(info.render_entries[0].used_bindings, vec![0]);

    let mut grouped = model;
    grouped.globals[2].binding = Some((2, 0));
    assert_eq!(
        reflect_model(&grouped).err().unwrap(),
        "'s' が @group(2) にありますが、group(0) のみ対応しています"
    );
}

#[test]
fn syntax_error_carries_the_front_end_report() {
    let err = reflect("fn main( {").unwrap_err();
    let prefix = "シェーダの構文エラー:\n";
    assert!(err.starts_with(prefix));
    assert!(err.len() > prefix.len());
}

#[test]
fn validation_error_carries_the_validator_report() {
    let err = reflect("var<storage, read_write> data: array<u32>;\n@compute @workgroup_size(1) fn m() { data[0] = 1u; }").unwrap_err();
    let prefix = "シェーダの検証エラー:\n";
    assert!(err.starts_with(prefix), "{}", err);
    assert!(err.len() > prefix.len());
}

#[test]
fn suggest_prefers_fewest_edits() {
    let msg = suggest("kitten", &["sitting", "kitchen"]);
    assert_eq!(msg, "'kitten' はありません。候補: kitchen");
    let msg = suggest("abc", &["cba", "abd"]);
    assert_eq!(msg, "'abc' はありません。候補: abd");
}
