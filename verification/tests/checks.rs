use ep_main::buffer::apply_pending_buffer;
use ep_main::engine::{
    check_complete, check_member_set, check_render_pair, check_set, find_kernel_entry, ResourceDesc, Visibility,
};
use ep_main::reflect::{reflect, BindingKind, EntryInfo, ShaderInfo, StructLayout, TextureFormat};
use ep_main::runs::dirty_runs;
use ep_main::staging::{PendingValue, UniformState};
use std::collections::{BTreeSet, HashMap};

const SRC: &str = r#"
struct Params { t: f32, gravity: vec2<f32>, n: u32 };
struct Boid { pos: vec2<f32>, vel: vec2<f32> };
@group(0) @binding(0) var<uniform> params: Params;
@group(0) @binding(1) var<storage, read> src: array<Boid>;
@group(0) @binding(2) var<storage, read_write> dst: array<Boid>;
@group(0) @binding(3) var canvas: texture_storage_2d<rgba8unorm, write>;
fn helper() -> f32 { return params.t; }
@compute @workgroup_size(64)
fn update(@builtin(global_invocation_id) id: vec3<u32>) {
  if (id.x >= arrayLength(&src)) { return; }
  dst[id.x].pos = src[id.x].pos + src[id.x].vel * helper();
}
@compute @workgroup_size(8, 8, 1)
fn splat(@builtin(global_invocation_id) id: vec3<u32>) {
  textureStore(canvas, vec2<i32>(id.xy), vec4<f32>(1.0));
}
"#;

const RENDER_SRC: &str = r#"
struct Params { size: vec2<f32> };
struct Boid { pos: vec2<f32>, vel: vec2<f32> };
@group(0) @binding(0) var<uniform> params: Params;
@group(0) @binding(1) var<storage, read> boids: array<Boid>;
struct VOut { @builtin(position) pos: vec4<f32>, @location(0) local: vec2<f32> };
@vertex
fn vsMain(@builtin(vertex_index) vid: u32, @builtin(instance_index) iid: u32) -> VOut {
  var o: VOut;
  o.pos = vec4<f32>(boids[iid].pos / params.size, 0.0, 1.0);
  o.local = vec2<f32>(0.0);
  return o;
}
@fragment
fn fsMain(v: VOut) -> @location(0) vec4<f32> {
  return vec4<f32>(v.local, params.size.x * 0.0, 1.0);
}
"#;

fn entry<'a>(info: &'a ShaderInfo, name: &str) -> &'a EntryInfo {
    info.entry_points.iter().find(|e| e.name == name).unwrap()
}

fn bits(v: &[f32]) -> Vec<u32> {
    v.iter().map(|x| x.to_bits()).collect()
}

#[test]
fn dirty_runs_coalesces_consecutive_elements() {
    let set = |v: &[u32]| v.iter().copied().collect::<BTreeSet<u32>>();
    assert_eq!(dirty_runs(&set(&[])), vec![]);
    assert_eq!(dirty_runs(&set(&[0, 1, 2, 3])), vec![(0, 4)]);
    assert_eq!(dirty_runs(&set(&[5])), vec![(5, 1)]);
    assert_eq!(dirty_runs(&set(&[0, 1, 5, 6, 7, 9])), vec![(0, 2), (5, 3), (9, 1)]);
    assert_eq!(dirty_runs(&set(&[3, 1, 2])), vec![(1, 3)]);
}

#[test]
fn set_unknown_name_suggests() {
    let info = reflect(SRC).unwrap();
    let err = check_set(&info.bindings, "srcc", &ResourceDesc::Buffer).unwrap_err();
    assert!(err.contains("srcc"));
    assert!(err.contains("src"));
}

#[test]
fn set_type_mismatch_texture_for_buffer() {
    let info = reflect(SRC).unwrap();
    let err = check_set(
        &info.bindings,
        "src",
        &ResourceDesc::Texture { format: TextureFormat::Rgba8Unorm, cube: false },
    )
    .unwrap_err();
    assert!(err.contains("GpuBuffer"));
}

#[test]
fn set_format_mismatch_storage_texture() {
    let info = reflect(SRC).unwrap();
    let err = check_set(
        &info.bindings,
        "canvas",
        &ResourceDesc::Texture { format: TextureFormat::Rgba32Float, cube: false },
    )
    .unwrap_err();
    assert!(err.contains("Rgba8Unorm"));
}

#[test]
fn set_declared_but_unused_by_entry_is_accepted() {
    let info = reflect(SRC).unwrap();
    let b = check_set(&info.bindings, "src", &ResourceDesc::Buffer).unwrap();
    assert_eq!(b, 1);
}

#[test]
fn set_declared_but_unused_still_type_checks() {
    let info = reflect(SRC).unwrap();
    let err = check_set(
        &info.bindings,
        "src",
        &ResourceDesc::Texture { format: TextureFormat::Rgba8Unorm, cube: false },
    )
    .unwrap_err();
    assert!(err.contains("GpuBuffer"));
}

#[test]
fn set_ok_returns_binding_number() {
    let info = reflect(SRC).unwrap();
    let b = check_set(&info.bindings, "dst", &ResourceDesc::Buffer).unwrap();
    assert_eq!(b, 2);
}

#[test]
fn complete_reports_missing() {
    let info = reflect(SRC).unwrap();
    let e = entry(&info, "update");
    let mut bound = HashMap::new();
    bound.insert(0u32, 1u64);
    let err = check_complete(&e.name, &e.used_bindings, &info.bindings, &bound).unwrap_err();
    assert!(err.contains("src") && err.contains("dst"));
}

#[test]
fn complete_ok() {
    let info = reflect(SRC).unwrap();
    let e = entry(&info, "update");
    let mut bound = HashMap::new();
    bound.insert(0u32, 1u64);
    bound.insert(1u32, 2u64);
    bound.insert(2u32, 3u64);
    assert!(check_complete(&e.name, &e.used_bindings, &info.bindings, &bound).is_ok());
}

#[test]
fn set_resolves_mangled_names() {
    let src = r#"
struct P_std140_0 { feed_0: f32, n_0: u32 };
@group(0) @binding(0) var<uniform> params_0: P_std140_0;
@group(0) @binding(1) var<storage, read_write> buf_0: array<f32>;
@compute @workgroup_size(64)
fn run(@builtin(global_invocation_id) id: vec3<u32>) { buf_0[id.x] = params_0.feed_0; }
"#;
    let info = reflect(src).unwrap();
    let _e = &info.entry_points[0];
    assert!(check_set(&info.bindings, "params", &ResourceDesc::Uniform).is_ok());
    assert!(check_set(&info.bindings, "buf", &ResourceDesc::Buffer).is_ok());
    assert!(check_set(&info.bindings, "buf_0", &ResourceDesc::Buffer).is_ok());
    let err = check_set(&info.bindings, "buff", &ResourceDesc::Buffer).unwrap_err();
    assert!(err.contains("buf") && !err.contains("buf_0"));
    let BindingKind::Uniform { layout } = &info.bindings[0].kind else { panic!() };
    assert!(check_member_set(layout, "feed", 1, false).is_ok());
    assert!(check_member_set(layout, "n", 1, true).is_ok());
}

#[test]
fn preserve_params_style_wgsl_accepts_unused_set() {
    let src = r#"
struct Params_std140_0 { @align(16) viewWidth_0: u32, @align(4) viewHeight_0: u32 };
struct Object_std430_0 { @align(4) type_0: i32 };
@binding(0) @group(0) var<uniform> params_0: Params_std140_0;
@binding(2) @group(0) var view_0: texture_storage_2d<rgba8unorm, write>;
@binding(1) @group(0) var<storage, read_write> objectsBuffer_0: array<Object_std430_0>;
@compute @workgroup_size(8, 8, 1)
fn rendering(@builtin(global_invocation_id) id: vec3<u32>) {
  if (id.x >= params_0.viewWidth_0) { return; }
  textureStore(view_0, vec2<i32>(id.xy), vec4<f32>(1.0));
}
"#;
    let info = reflect(src).unwrap();
    let b = check_set(&info.bindings, "objectsBuffer", &ResourceDesc::Buffer).unwrap();
    assert_eq!(b, 1);

    let e = entry(&info, "rendering");
    let mut bound = HashMap::new();
    for &i in &e.used_bindings {
        bound.insert(info.bindings[i].binding, 1u64);
    }
    assert!(!bound.contains_key(&b));
    assert!(check_complete(&e.name, &e.used_bindings, &info.bindings, &bound).is_ok());
}

#[test]
fn uniform_set_checks_name_type_count() {
    let info = reflect(SRC).unwrap();
    let BindingKind::Uniform { layout } = &info.bindings.iter().find(|b| b.name == "params").unwrap().kind
    else {
        panic!()
    };
    assert_eq!(check_member_set(layout, "t", 1, false).unwrap(), (0, 4));
    assert_eq!(check_member_set(layout, "gravity", 2, false).unwrap(), (8, 8));
    assert!(check_member_set(layout, "t", 2, false).is_err());
    assert!(check_member_set(layout, "n", 1, false).is_err());
    assert!(check_member_set(layout, "n", 1, true).is_ok());
    assert!(check_member_set(layout, "feedd", 1, false).is_err());
}

#[test]
fn uniform_set_checks_matrix_member() {
    let src = r#"
struct MatStorage { @align(16) data: array<vec4<f32>, 4> };
struct P { @align(16) vp: MatStorage };
@group(0) @binding(0) var<uniform> params: P;
@compute @workgroup_size(1) fn main() { let x = params.vp.data[0]; }
"#;
    let info = reflect(src).unwrap();
    let BindingKind::Uniform { layout } = &info.bindings[0].kind else {
        panic!()
    };
    assert_eq!(check_member_set(layout, "vp", 16, false).unwrap(), (0, 64));
    assert!(check_member_set(layout, "vp", 4, false).is_err());
    assert!(check_member_set(layout, "vp", 1, true).is_err());
}

fn params_layout() -> StructLayout {
    let info = reflect(SRC).unwrap();
    let BindingKind::Uniform { layout } = &info.bindings.iter().find(|b| b.name == "params").unwrap().kind
    else {
        panic!()
    };
    layout.clone()
}

#[test]
fn uniform_set_before_bind_is_applied_on_bind() {
    let layout = params_layout();
    let mut u = UniformState::new();
    u.set_member("t", &bits(&[1.5]), None).unwrap();
    u.set_member("n", &[], Some(7)).unwrap();
    u.set_member("t", &bits(&[2.5]), None).unwrap();

    u.staging = vec![0u8; layout.size as usize];
    u.layout = Some(layout);
    u.dirty = false;
    u.apply_pending().unwrap();
    assert_eq!(f32::from_le_bytes(u.staging[0..4].try_into().unwrap()), 2.5);
    assert_eq!(i32::from_le_bytes(u.staging[16..20].try_into().unwrap()), 7);
    assert!(u.pending.is_empty());
    assert!(u.dirty);
}

#[test]
fn uniform_pending_error_names_member_on_bind() {
    let layout = params_layout();
    let mut u = UniformState::new();
    u.set_member("typo", &bits(&[1.0]), None).unwrap();
    u.staging = vec![0u8; layout.size as usize];
    u.layout = Some(layout);
    let err = u.apply_pending().unwrap_err();
    assert!(err.contains("typo"), "{err}");
}

#[test]
fn buffer_set_before_bind_is_applied_on_bind() {
    let info = reflect(SRC).unwrap();
    let BindingKind::Storage { stride, layout, .. } =
        &info.bindings.iter().find(|b| b.name == "src").unwrap().kind
    else {
        panic!()
    };
    let mut mirror = Vec::new();
    let mut dirty = BTreeSet::new();
    let mut pending = vec![
        (1u32, "pos".to_string(), PendingValue::F(bits(&[3.0, 4.0]))),
        (2u32, "vel".to_string(), PendingValue::F(bits(&[5.0, 6.0]))),
    ];
    apply_pending_buffer(layout.as_ref(), *stride, 4, &mut mirror, &mut dirty, &mut pending).unwrap();
    let s = *stride as usize;
    assert_eq!(mirror.len(), 4 * s);
    assert_eq!(f32::from_le_bytes(mirror[s..s + 4].try_into().unwrap()), 3.0);
    assert_eq!(f32::from_le_bytes(mirror[2 * s + 8..2 * s + 12].try_into().unwrap()), 5.0);
    assert!(dirty.contains(&1) && dirty.contains(&2));
    assert!(pending.is_empty());
}

#[test]
fn render_pair_merges_visibility() {
    let info = reflect(RENDER_SRC).unwrap();
    let (_, _, used) = check_render_pair(&info, "vsMain", "fsMain").unwrap();
    let vis = |name: &str| {
        used.iter().find(|(i, _)| info.bindings[*i].name == name).map(|(_, v)| *v).unwrap()
    };
    assert_eq!(vis("params"), Visibility { vertex: true, fragment: true });
    assert_eq!(vis("boids"), Visibility { vertex: true, fragment: false });
}

#[test]
fn render_pair_unknown_vs_suggests() {
    let info = reflect(RENDER_SRC).unwrap();
    let err = check_render_pair(&info, "vsMai", "fsMain").unwrap_err();
    assert!(err.contains("vsMain"), "候補が出ること: {err}");
}

#[test]
fn render_pair_rejects_fs_name_as_vs() {
    let info = reflect(RENDER_SRC).unwrap();
    assert!(check_render_pair(&info, "fsMain", "fsMain").is_err());
}

#[test]
fn render_pair_rejects_rw_storage_in_vertex() {
    let src = r#"
struct Boid { pos: vec2<f32>, vel: vec2<f32> };
@group(0) @binding(0) var<storage, read_write> boids: array<Boid>;
@vertex
fn vsMain(@builtin(instance_index) iid: u32) -> @builtin(position) vec4<f32> {
  return vec4<f32>(boids[iid].pos, 0.0, 1.0);
}
@fragment
fn fsMain() -> @location(0) vec4<f32> { return vec4<f32>(1.0); }
"#;
    let info = reflect(src).unwrap();
    let err = check_render_pair(&info, "vsMain", "fsMain").unwrap_err();
    assert!(err.contains("StructuredBuffer"), "直し方を案内すること: {err}");
}

#[test]
fn kernel_entry_is_found_or_suggested() {
    let info = reflect(SRC).unwrap();
    assert_eq!(find_kernel_entry(&info.entry_points, "splat").unwrap(), 1);
    assert_eq!(
        find_kernel_entry(&info.entry_points, "updat").unwrap_err(),
        "エントリポイント 'updat' はありません。候補: update"
    );
}
