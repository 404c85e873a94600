use ep_main::bridge::{
    argb_to_rgba, check_argb_target, check_cube, check_range, check_show_format, check_texture_size,
    float_texel_size, format_of, words_to_bytes,
};
use ep_main::cpu_render::{index, Stats};
use ep_main::reflect::TextureFormat;

#[test]
fn format_numbers() {
    assert_eq!(format_of(0).unwrap(), TextureFormat::Rgba8Unorm);
    assert_eq!(format_of(1).unwrap(), TextureFormat::Rgba32Float);
    assert_eq!(format_of(2).unwrap(), TextureFormat::R32Float);
    assert_eq!(format_of(3).unwrap_err(), "不正なフォーマット番号: 3");
    assert_eq!(format_of(-7).unwrap_err(), "不正なフォーマット番号: -7");
}

#[test]
fn texture_sizes() {
    assert_eq!(check_texture_size(3, 2).unwrap(), (3, 2));
    assert_eq!(check_texture_size(0, 2).unwrap_err(), "テクスチャの大きさは 1 以上が必要");
    assert_eq!(check_cube(256, 9).unwrap(), (256, 9));
    assert_eq!(check_cube(1, 1).unwrap(), (1, 1));
    assert_eq!(check_cube(256, 10).unwrap_err(), "ミップ段数は 1〜9 が必要（大きさ 256）");
    assert_eq!(check_cube(100, 0).unwrap_err(), "ミップ段数は 1〜7 が必要（大きさ 100）");
    assert_eq!(check_cube(-1, 1).unwrap_err(), "テクスチャの大きさは 1 以上が必要");
}

#[test]
fn array_ranges() {
    assert!(check_range(10, 2, 8).is_ok());
    assert!(check_range(10, 0, 0).is_ok());
    assert_eq!(check_range(10, 3, 8).unwrap_err(), "配列の範囲指定が不正です: from=3, count=8（配列長 10）");
    assert_eq!(check_range(10, -1, 2).unwrap_err(), "配列の範囲指定が不正です: from=-1, count=2（配列長 10）");
}

#[test]
fn value_and_pixel_encodings() {
    assert_eq!(words_to_bytes(&[1.5f32.to_bits(), 7]), vec![0, 0, 0xc0, 0x3f, 7, 0, 0, 0]);
    assert_eq!(words_to_bytes(&[(-2i32) as u32]), vec![0xfe, 0xff, 0xff, 0xff]);
    assert_eq!(argb_to_rgba(&[0x80102030, 0xff0000ff]), vec![0x10, 0x20, 0x30, 0x80, 0, 0, 0xff, 0xff]);
}

#[test]
fn upload_targets() {
    assert_eq!(float_texel_size(Some(TextureFormat::Rgba32Float)).unwrap(), 16);
    assert_eq!(float_texel_size(Some(TextureFormat::R32Float)).unwrap(), 4);
    assert_eq!(
        float_texel_size(Some(TextureFormat::Rgba8Unorm)).unwrap_err(),
        "float[] を書けるのは RGBA32F / R32F テクスチャだけです（これは Rgba8Unorm）"
    );
    assert_eq!(float_texel_size(None).unwrap_err(), "不正なテクスチャ id");
    assert!(check_argb_target(Some(TextureFormat::Rgba8Unorm)).is_ok());
    assert!(check_argb_target(Some(TextureFormat::R32Float)).is_err());
    assert!(check_show_format(TextureFormat::Rgba8Unorm).is_ok());
    assert_eq!(
        check_show_format(TextureFormat::Rgba32Float).unwrap_err(),
        "show() は RGBA8 テクスチャのみ対応です（渡されたのは Rgba32Float）"
    );
}

#[test]
fn lut_positions_and_stats() {
    assert_eq!(index(5, 0, 0, 0), 0);
    assert_eq!(index(5, 1, 0, 0), 3);
    assert_eq!(index(5, 0, 1, 0), 15);
    assert_eq!(index(5, 4, 4, 4), 372);
    let mut a = Stats { rays: 1, steps: 2, sphere_steps: 3, group_checks: 4, triangle_measures: 5 };
    let b = Stats { rays: 10, steps: 20, sphere_steps: 30, group_checks: 40, triangle_measures: 50 };
    a.add(&b);
    assert_eq!((a.rays, a.steps, a.sphere_steps, a.group_checks, a.triangle_measures), (11, 22, 33, 44, 55));
    let z = Stats::default();
    assert_eq!(z.rays, 0);
}
