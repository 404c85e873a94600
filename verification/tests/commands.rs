use ep_main::bind_group::{bind_group_plan, binding_order, SlotKind};
use ep_main::commands::{
    blend_of, check_copy, check_index_buffer, check_indirect_args, check_layer_write,
    check_renderer_config, check_scissor, check_texture_write, clip_scissor, depth_stale,
    needs_depth_clear, needs_strip_index, pass_compatible, profile_slot, topology_of,
    unbind_resource, workgroup_counts, Blend, BufferLookup, IndexLookup, PassKey, Topology,
};
use ep_main::engine::check_render_pair;
use ep_main::reflect::{reflect, TextureFormat};
use std::collections::HashMap;

const RENDER_SRC: &str = r#"
struct Params { size: vec2<f32> };
struct Boid { pos: vec2<f32>, vel: vec2<f32> };
@group(0) @binding(1) var<uniform> params: Params;
@group(0) @binding(0) var<storage, read> boids: array<Boid>;
@group(0) @binding(3) var tex: texture_2d<f32>;
@group(0) @binding(2) var samp: sampler;
struct VOut { @builtin(position) pos: vec4<f32>, @location(0) local: vec2<f32> };
@vertex
fn vsMain(@builtin(vertex_index) vid: u32, @builtin(instance_index) iid: u32) -> VOut {
  var o: VOut;
  o.pos = vec4<f32>(boids[iid].pos / params.size, 0.0, 1.0);
  o.local = vec2<f32>(0.0);
  return o;
}
@fragment
fn fsMain(v: VOut) -> @location(0) vec4<f32> {
  return textureSample(tex, samp, v.local) * params.size.x;
}
"#;

#[test]
fn workgroups_round_threads_up() {
    assert_eq!(workgroup_counts(100, 0, 1, true, [64, 1, 1]), [2, 1, 1]);
    assert_eq!(workgroup_counts(128, 17, 3, true, [64, 8, 1]), [2, 3, 3]);
    assert_eq!(workgroup_counts(0, 5, 0, false, [64, 1, 1]), [1, 5, 1]);
    assert_eq!(workgroup_counts(0, 0, 0, true, [8, 8, 1]), [1, 1, 1]);
}

#[test]
fn indirect_args_errors() {
    assert_eq!(check_indirect_args(BufferLookup::Missing, 0, 12).unwrap_err(), "不正な indirect バッファ id");
    assert!(check_indirect_args(BufferLookup::Unsized, 0, 12).unwrap_err().contains("ストライドが未確定"));
    assert_eq!(
        check_indirect_args(BufferLookup::Sized(64), 6, 12).unwrap_err(),
        "indirect のバイトオフセットは 4 の倍数が必要です: 6"
    );
    assert_eq!(
        check_indirect_args(BufferLookup::Sized(16), 8, 12).unwrap_err(),
        "indirect 引数がバッファ外です: オフセット 8 + 12 バイト（バッファは 16 バイト）"
    );
    assert!(check_indirect_args(BufferLookup::Sized(20), 8, 12).is_ok());
}

#[test]
fn copy_checks_in_order() {
    let s = BufferLookup::Sized(64);
    assert_eq!(
        check_copy(s, 2, s, 0, 4, false).unwrap_err(),
        "コピーのオフセット・バイト数は 4 の倍数が必要です: srcOffset=2, dstOffset=0, byteCount=4"
    );
    assert_eq!(check_copy(s, 0, s, 0, 4, true).unwrap_err(), "同じバッファ内でのコピーはできません");
    assert_eq!(check_copy(BufferLookup::Missing, 0, s, 0, 4, false).unwrap_err(), "不正なコピー元バッファ id");
    assert_eq!(check_copy(s, 0, BufferLookup::Missing, 0, 4, false).unwrap_err(), "不正なコピー先バッファ id");
    assert!(check_copy(s, 0, BufferLookup::Unsized, 0, 4, false).unwrap_err().starts_with("コピー先バッファのストライドが未確定です"));
    assert_eq!(
        check_copy(s, 60, BufferLookup::Sized(128), 0, 8, false).unwrap_err(),
        "コピー範囲がコピー元を超えています: オフセット 60 + 8 バイト（バッファは 64 バイト）"
    );
    assert_eq!(
        check_copy(BufferLookup::Sized(128), 0, s, 64, 4, false).unwrap_err(),
        "コピー範囲がコピー先を超えています: オフセット 64 + 4 バイト（バッファは 64 バイト）"
    );
    assert!(check_copy(s, 0, BufferLookup::Sized(8), 0, 0, false).is_ok());
    assert!(check_copy(s, 32, BufferLookup::Sized(8), 0, 8, false).is_ok());
}

#[test]
fn texture_write_needs_whole_image() {
    assert_eq!(check_texture_write(4, 2, TextureFormat::Rgba8Unorm, 32, 4).unwrap(), 32);
    assert_eq!(check_texture_write(4, 2, TextureFormat::Rgba8Unorm, 40, 4).unwrap(), 32);
    assert_eq!(
        check_texture_write(4, 2, TextureFormat::Rgba32Float, 64, 16).unwrap_err(),
        "データが足りません: 64 バイト（4x2 の Rgba32Float には 128 バイト必要）"
    );
}

#[test]
fn layer_write_halves_per_level() {
    let lw = check_layer_write(8, 8, TextureFormat::Rgba32Float, true, 4, 5, 2, 64, 16).unwrap();
    assert_eq!((lw.width, lw.height, lw.bytes), (2, 2, 64));
    let lw = check_layer_write(8, 8, TextureFormat::Rgba32Float, true, 4, 0, 3, 16, 16).unwrap();
    assert_eq!((lw.width, lw.height, lw.bytes), (1, 1, 16));
    assert_eq!(
        check_layer_write(8, 8, TextureFormat::R32Float, true, 4, 6, 0, 256, 4).unwrap_err(),
        "面 6 段 0 はありません（面 6、段 4）"
    );
    assert_eq!(
        check_layer_write(8, 8, TextureFormat::R32Float, false, 1, 1, 0, 256, 4).unwrap_err(),
        "面 1 段 0 はありません（面 1、段 1）"
    );
    assert_eq!(
        check_layer_write(8, 8, TextureFormat::R32Float, true, 4, 0, 1, 8, 4).unwrap_err(),
        "データが足りません: 8 バイト（4x4 の R32Float には 64 バイト必要）"
    );
}

#[test]
fn index_buffer_checks() {
    let ok = IndexLookup::Buffer { stride: Some(4), realized: true, element_count: 6 };
    assert!(check_index_buffer(ok, 0, 6).is_ok());
    assert_eq!(
        check_index_buffer(ok, 3, 6).unwrap_err(),
        "インデックス範囲がバッファ外です: 3..9 (要素数 6)"
    );
    assert_eq!(
        check_index_buffer(ok, u32::MAX, 6).unwrap_err(),
        format!("インデックス範囲がバッファ外です: {}..{} (要素数 6)", u32::MAX, u32::MAX)
    );
    let wide = IndexLookup::Buffer { stride: Some(16), realized: true, element_count: 6 };
    assert_eq!(
        check_index_buffer(wide, 0, 1).unwrap_err(),
        "インデックスに使うバッファはストライド 4（u32）が必要です（このバッファは 16 バイト）"
    );
    let open = IndexLookup::Buffer { stride: None, realized: false, element_count: 6 };
    assert!(check_index_buffer(open, 0, 1).unwrap_err().starts_with("インデックスバッファのストライドが未確定です"));
    assert_eq!(check_index_buffer(IndexLookup::Missing, 0, 1).unwrap_err(), "不正なインデックスバッファ id");
}

#[test]
fn scissor_is_checked_then_clipped() {
    assert_eq!(check_scissor(None).unwrap(), None);
    assert_eq!(check_scissor(Some([1, 2, 3, 4])).unwrap(), Some([1, 2, 3, 4]));
    assert_eq!(check_scissor(Some([-1, 2, 0, 4])).unwrap_err(), "不正なシザー矩形: (-1, 2, 0, 4)");
    assert_eq!(clip_scissor(None, 100, 50), Some([0, 0, 100, 50]));
    assert_eq!(clip_scissor(Some([90, 40, 20, 20]), 100, 50), Some([90, 40, 10, 10]));
    assert_eq!(clip_scissor(Some([100, 0, 20, 20]), 100, 50), None);
}

#[test]
fn draws_join_compatible_passes() {
    let p = PassKey { target: 7, depth: None, last_renderer: None };
    assert!(pass_compatible(Some(p), 7, true, false, 3));
    assert!(!pass_compatible(Some(p), 8, true, false, 3));
    assert!(!pass_compatible(None, 7, true, false, 3));
    let d = PassKey { target: 7, depth: Some(false), last_renderer: Some(2) };
    assert!(!pass_compatible(Some(d), 7, true, false, 2));
    assert!(pass_compatible(Some(d), 7, false, false, 3));
    assert!(!pass_compatible(Some(d), 7, false, true, 3));
    assert!(pass_compatible(Some(d), 7, false, true, 2));
    assert!(depth_stale(None, 4, 4));
    assert!(depth_stale(Some((4, 2)), 4, 4));
    assert!(!depth_stale(Some((4, 4)), 4, 4));
    assert!(needs_depth_clear(true, false, true));
    assert!(!needs_depth_clear(true, true, true));
}

#[test]
fn renderer_settings() {
    assert!(check_renderer_config(4, 2).is_ok());
    assert_eq!(check_renderer_config(5, 0).unwrap_err(), "不正なトポロジ番号: 5");
    assert_eq!(check_renderer_config(0, 3).unwrap_err(), "不正なブレンド番号: 3");
    assert_eq!(topology_of(0), Topology::TriangleList);
    assert_eq!(topology_of(3), Topology::TriangleStrip);
    assert!(needs_strip_index(topology_of(4)));
    assert!(!needs_strip_index(topology_of(1)));
    assert_eq!(blend_of(1), Blend::Alpha);
    assert_eq!(blend_of(2), Blend::Additive);
    assert_eq!(blend_of(0), Blend::Replace);
}

#[test]
fn timestamp_slots_until_full() {
    assert_eq!(profile_slot(0, 512), Some((0, 1)));
    assert_eq!(profile_slot(255, 512), Some((510, 511)));
    assert_eq!(profile_slot(256, 512), None);
}

#[test]
fn release_clears_every_slot_of_the_resource() {
    let mut bound = HashMap::new();
    bound.insert(0u32, 5u64);
    bound.insert(1u32, 6u64);
    bound.insert(2u32, 5u64);
    assert!(unbind_resource(&mut bound, 5));
    assert_eq!(bound.len(), 1);
    assert_eq!(bound.get(&1), Some(&6));
    assert!(!unbind_resource(&mut bound, 5));
    assert_eq!(bound.len(), 1);
}

#[test]
fn bind_group_is_planned_in_binding_order() {
    let info = reflect(RENDER_SRC).unwrap();
    let (_, _, used) = check_render_pair(&info, "vsMain", "fsMain").unwrap();
    let indices: Vec<usize> = used.iter().map(|(i, _)| *i).collect();
    let order = binding_order(&indices, &info.bindings);
    let numbers: Vec<u32> = order.iter().map(|&k| info.bindings[indices[k]].binding).collect();
    assert_eq!(numbers, vec![0, 1, 2, 3]);

    let mut bound = HashMap::new();
    bound.insert(0u32, 10u64);
    bound.insert(1u32, 11u64);
    bound.insert(3u32, 13u64);
    let textures: Vec<Option<(TextureFormat, bool)>> = indices
        .iter()
        .map(|&i| if info.bindings[i].name == "tex" { Some((TextureFormat::Rgba32Float, false)) } else { None })
        .collect();
    let plan = bind_group_plan(&indices, &info.bindings, &bound, &textures, false).unwrap();
    let kinds: Vec<SlotKind> = plan.entries.iter().map(|e| e.kind).collect();
    assert_eq!(
        kinds,
        vec![
            SlotKind::Storage { read_only: true },
            SlotKind::Uniform { min_size: 8 },
            SlotKind::Sampler,
            SlotKind::SampledTexture { filterable: false, cube: false },
        ]
    );
    assert_eq!(plan.entries[2].resource, None);
    assert_eq!(plan.entries[3].resource, Some(13));
    assert_eq!(plan.uniform_resources, vec![11]);
    let plan = bind_group_plan(&indices, &info.bindings, &bound, &textures, true).unwrap();
    assert_eq!(plan.entries[3].kind, SlotKind::SampledTexture { filterable: true, cube: false });

    let no_texture: Vec<Option<(TextureFormat, bool)>> = indices.iter().map(|_| None).collect();
    assert_eq!(
        bind_group_plan(&indices, &info.bindings, &bound, &no_texture, false).err().unwrap(),
        "'tex' に texture 以外が bind されています"
    );
}
