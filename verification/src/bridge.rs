//! What the host-language entry points check and convert before calling the engine:
//! format numbers, texture sizes and mip counts, array ranges, pixel and value encodings.
use crate::reflect::{format_name, TextureFormat};
use crate::staging::{encode_words, le_bytes};
use crate::text::{decimal, push_decimal, push_signed, signed_decimal};
use vstd::prelude::*;

verus! {

/// The texture format numbered `format` (0 RGBA8, 1 RGBA32F, 2 R32F), or the error.
pub open spec fn format_spec(format: i32) -> Result<TextureFormat, Seq<char>> {
    if format == 0 {
        Ok(TextureFormat::Rgba8Unorm)
    } else if format == 1 {
        Ok(TextureFormat::Rgba32Float)
    } else if format == 2 {
        Ok(TextureFormat::R32Float)
    } else {
        Err("不正なフォーマット番号: "@ + signed_decimal(format as int))
    }
}

/// The texture format numbered `format`.
pub fn format_of(format: i32) -> (r: Result<TextureFormat, String>)
    ensures
        crate::engine::text_result(r) == format_spec(format),
{
    if format == 0 {
        Ok(TextureFormat::Rgba8Unorm)
    } else if format == 1 {
        Ok(TextureFormat::Rgba32Float)
    } else if format == 2 {
        Ok(TextureFormat::R32Float)
    } else {
        let mut m = String::from_str("不正なフォーマット番号: ");
        push_signed(&mut m, format as i64);
        Err(m)
    }
}

/// The error for a texture side below 1.
pub open spec fn texture_size_message() -> Seq<char> {
    "テクスチャの大きさは 1 以上が必要"@
}

/// A 2D texture is at least 1 × 1.
pub fn check_texture_size(w: i32, h: i32) -> (r: Result<(u32, u32), String>)
    ensures
        w >= 1 && h >= 1 <==> r is Ok,
        r matches Ok((a, b)) ==> a == w && b == h,
        r matches Err(m) ==> m@ == texture_size_message(),
{
    if w <= 0 || h <= 0 {
        return Err(String::from_str("テクスチャの大きさは 1 以上が必要"));
    }
    Ok((w as u32, h as u32))
}

/// How many mip levels a texture of side `size` can have: the bit length of `size`.
pub open spec fn max_mips(size: u32) -> u32 {
    (32 - vstd::std_specs::bits::u32_leading_zeros(size)) as u32
}

/// The error for a mip count out of range.
pub open spec fn mips_message(max: u32, size: i32) -> Seq<char> {
    "ミップ段数は 1〜"@ + decimal(max as nat) + " が必要（大きさ "@ + signed_decimal(size as int)
        + "）"@
}

/// A cube texture of side `size` with `mips` levels: the side is at least 1 and the level
/// count between 1 and the bit length of the side. On success, the side and the level count.
pub fn check_cube(size: i32, mips: i32) -> (r: Result<(u32, u32), String>)
    ensures
        size < 1 ==> (r matches Err(m) && m@ == texture_size_message()),
        size >= 1 ==> {
            let max = max_mips(size as u32);
            if mips < 1 || mips > max {
                r matches Err(m) && m@ == mips_message(max, size)
            } else {
                r == Ok::<(u32, u32), String>((size as u32, mips as u32))
            }
        },
        r matches Ok((_, m)) ==> 1 <= m <= 32,
{
    if size <= 0 {
        return Err(String::from_str("テクスチャの大きさは 1 以上が必要"));
    }
    let side = size as u32;
    let lz = side.leading_zeros();
    proof {
        vstd::std_specs::bits::axiom_u32_leading_zeros(side);
    }
    let max = 32 - lz;
    if mips <= 0 || mips as u32 > max {
        let mut m = String::from_str("ミップ段数は 1〜");
        push_decimal(&mut m, max as u64);
        m.append(" が必要（大きさ ");
        push_signed(&mut m, size as i64);
        m.append("）");
        return Err(m);
    }
    Ok((side, mips as u32))
}

/// The error for an array range outside an array of `len` items.
pub open spec fn range_message(len: nat, from: i32, count: i32) -> Seq<char> {
    "配列の範囲指定が不正です: from="@ + signed_decimal(from as int) + ", count="@ + signed_decimal(
        count as int,
    ) + "（配列長 "@ + decimal(len) + "）"@
}

/// `[from, from + count)` must lie inside an array of `len` items.
pub fn check_range(len: usize, from: i32, count: i32) -> (r: Result<(), String>)
    ensures
        (from >= 0 && count >= 0 && from + count <= len) <==> r is Ok,
        r matches Err(m) ==> m@ == range_message(len as nat, from, count),
{
    if from < 0 || count < 0 || from as u64 + count as u64 > len as u64 {
        let mut m = String::from_str("配列の範囲指定が不正です: from=");
        push_signed(&mut m, from as i64);
        m.append(", count=");
        push_signed(&mut m, count as i64);
        m.append("（配列長 ");
        push_decimal(&mut m, len as u64);
        m.append("）");
        return Err(m);
    }
    Ok(())
}

/// The little-endian bytes of 32-bit words, in order (float bit patterns or ints).
pub fn words_to_bytes(words: &[u32]) -> (bytes: Vec<u8>)
    ensures
        bytes@ == encode_words(words@),
{
    let mut bytes: Vec<u8> = Vec::new();
    let mut i: usize = 0;
    while i < words.len()
        invariant
            i <= words@.len(),
            bytes@ == encode_words(words@.take(i as int)),
        decreases words@.len() - i,
    {
        let w = words[i];
        bytes.push((w % 256) as u8);
        bytes.push((w / 256 % 256) as u8);
        bytes.push((w / 65536 % 256) as u8);
        bytes.push((w / 16777216) as u8);
        assert(words@.take(i + 1).drop_last() =~= words@.take(i as int));
        assert(words@.take(i + 1).last() == w);
        assert(encode_words(words@.take(i + 1)) == encode_words(words@.take(i as int)) + le_bytes(w));
        i += 1;
    }
    assert(words@.take(words@.len() as int) =~= words@);
    bytes
}

/// The RGBA8 bytes of one `0xAARRGGBB` pixel.
pub open spec fn rgba_of_argb(p: u32) -> Seq<u8> {
    seq![(p / 65536 % 256) as u8, (p / 256 % 256) as u8, (p % 256) as u8, (p / 16777216) as u8]
}

/// The RGBA8 bytes of `0xAARRGGBB` pixels, in order.
pub open spec fn rgba_of_pixels(ps: Seq<u32>) -> Seq<u8>
    decreases ps.len(),
{
    if ps.len() == 0 {
        Seq::empty()
    } else {
        rgba_of_pixels(ps.drop_last()) + rgba_of_argb(ps.last())
    }
}

/// Processing's `0xAARRGGBB` pixels as the RGBA8 bytes of a texture.
pub fn argb_to_rgba(pixels: &[u32]) -> (bytes: Vec<u8>)
    ensures
        bytes@ == rgba_of_pixels(pixels@),
        bytes@.len() == 4 * pixels@.len(),
{
    let mut bytes: Vec<u8> = Vec::new();
    let mut i: usize = 0;
    while i < pixels.len()
        invariant
            i <= pixels@.len(),
            bytes@ == rgba_of_pixels(pixels@.take(i as int)),
            bytes@.len() == 4 * i,
        decreases pixels@.len() - i,
    {
        let p = pixels[i];
        bytes.push((p / 65536 % 256) as u8);
        bytes.push((p / 256 % 256) as u8);
        bytes.push((p % 256) as u8);
        bytes.push((p / 16777216) as u8);
        assert(pixels@.take(i + 1).drop_last() =~= pixels@.take(i as int));
        assert(pixels@.take(i + 1).last() == p);
        i += 1;
    }
    assert(pixels@.take(pixels@.len() as int) =~= pixels@);
    bytes
}

/// The bytes per pixel for a `float[]` upload to a texture of `format` (`None`: no texture).
pub open spec fn float_texel_spec(format: Option<TextureFormat>) -> Result<u32, Seq<char>> {
    match format {
        Some(TextureFormat::Rgba32Float) => Ok(16),
        Some(TextureFormat::R32Float) => Ok(4),
        Some(f) => Err(
            "float[] を書けるのは RGBA32F / R32F テクスチャだけです（これは "@ + format_name(f) + "）"@,
        ),
        None => Err("不正なテクスチャ id"@),
    }
}

/// `texture.write(float[])`: RGBA32F takes 16 bytes per pixel, R32F 4; other formats refuse.
pub fn float_texel_size(format: Option<TextureFormat>) -> (r: Result<u32, String>)
    ensures
        crate::engine::text_result(r) == float_texel_spec(format),
{
    match format {
        Some(TextureFormat::Rgba32Float) => Ok(16),
        Some(TextureFormat::R32Float) => Ok(4),
        Some(f) => {
            let mut m = String::from_str("float[] を書けるのは RGBA32F / R32F テクスチャだけです（これは ");
            m.append(f.name());
            m.append("）");
            Err(m)
        },
        None => Err(String::from_str("不正なテクスチャ id")),
    }
}

/// `texture.write(int[])` (ARGB pixels) needs an RGBA8 texture.
pub fn check_argb_target(format: Option<TextureFormat>) -> (r: Result<(), String>)
    ensures
        format == Some(TextureFormat::Rgba8Unorm) <==> r is Ok,
        r matches Err(m) ==> m@ == "int[] (ARGB) を書けるのは RGBA8 テクスチャだけです。float 系は write(float[]) を使ってください"@,
{
    match format {
        Some(TextureFormat::Rgba8Unorm) => Ok(()),
        _ => Err(
            String::from_str(
                "int[] (ARGB) を書けるのは RGBA8 テクスチャだけです。float 系は write(float[]) を使ってください",
            ),
        ),
    }
}

/// `show(texture)` presents RGBA8 textures only.
pub fn check_show_format(format: TextureFormat) -> (r: Result<(), String>)
    ensures
        format == TextureFormat::Rgba8Unorm <==> r is Ok,
        r matches Err(m) ==> m@ == "show() は RGBA8 テクスチャのみ対応です（渡されたのは "@ + format_name(format) + "）"@,
{
    match format {
        TextureFormat::Rgba8Unorm => Ok(()),
        _ => {
            let mut m = String::from_str("show() は RGBA8 テクスチャのみ対応です（渡されたのは ");
            m.append(format.name());
            m.append("）");
            Err(m)
        },
    }
}

} // verus!
