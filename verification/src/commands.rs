//! The checks and decisions of recorded GPU commands: dispatch sizes, indirect arguments,
//! buffer copies, texture uploads, index buffers, scissor rectangles, merging draws into
//! render passes, render-pipeline settings and timestamp slots.
use crate::reflect::{format_name, TextureFormat};
use crate::text::{decimal, push_decimal, push_signed, signed_decimal};
use std::collections::HashMap;
use vstd::prelude::*;
use vstd::std_specs::hash::spec_hash_map_iter;
use vstd::std_specs::iter::IteratorSpec;

verus! {

/// `v`, or 1 when `v` is 0.
pub open spec fn at_least_one(v: u32) -> u32 {
    if v == 0 {
        1
    } else {
        v
    }
}

/// `a / b` rounded up.
pub open spec fn ceil_div(a: u32, b: u32) -> u32
    recommends
        b > 0,
{
    if a % b == 0 {
        (a / b) as u32
    } else {
        (a / b + 1) as u32
    }
}

fn at_least_one_of(v: u32) -> (r: u32)
    ensures
        r == at_least_one(v),
{
    if v == 0 {
        1
    } else {
        v
    }
}

fn ceil_div_of(a: u32, b: u32) -> (r: u32)
    requires
        b > 0,
    ensures
        r == ceil_div(a, b),
{
    let q = a / b;
    if a % b == 0 {
        q
    } else {
        assert(q < u32::MAX) by (nonlinear_arith)
            requires
                q == a / b,
                b > 0,
                a % b != 0,
                a <= u32::MAX,
        ;
        q + 1
    }
}

/// The workgroup counts of a direct dispatch: with `threads`, `x × y × z` threads (a zero
/// `y` or `z` counting as 1) rounded up to whole workgroups; otherwise the counts as given.
/// No count is below 1.
pub open spec fn workgroup_counts_spec(x: u32, y: u32, z: u32, threads: bool, size: [u32; 3]) -> [u32; 3] {
    if threads {
        [
            at_least_one(ceil_div(x, size[0])),
            at_least_one(ceil_div(at_least_one(y), size[1])),
            at_least_one(ceil_div(at_least_one(z), size[2])),
        ]
    } else {
        [at_least_one(x), at_least_one(y), at_least_one(z)]
    }
}

/// Counting threads, the workgroups dispatched cover every thread asked for, with less than
/// one workgroup to spare in each dimension.
pub proof fn lemma_workgroups_cover_threads(x: u32, y: u32, z: u32, size: [u32; 3])
    requires
        size[0] >= 1,
        size[1] >= 1,
        size[2] >= 1,
    ensures
        ({
            let c = workgroup_counts_spec(x, y, z, true, size);
            &&& c[0] * size[0] >= x
            &&& c[1] * size[1] >= at_least_one(y)
            &&& c[2] * size[2] >= at_least_one(z)
            &&& x > 0 ==> (c[0] - 1) * size[0] < x
            &&& (c[1] - 1) * size[1] < at_least_one(y)
            &&& (c[2] - 1) * size[2] < at_least_one(z)
        }),
{
    lemma_ceil_div_bounds(x, size[0]);
    lemma_ceil_div_bounds(at_least_one(y), size[1]);
    lemma_ceil_div_bounds(at_least_one(z), size[2]);
}

/// `ceil_div(a, b)` workgroups of `b` cover `a` with less than one to spare.
proof fn lemma_ceil_div_bounds(a: u32, b: u32)
    requires
        b >= 1,
    ensures
        ceil_div(a, b) * b >= a,
        a > 0 ==> (ceil_div(a, b) - 1) * b < a,
        a > 0 ==> ceil_div(a, b) >= 1,
{
    let q = a / b;
    let r = a % b;
    assert(a == q * b + r && 0 <= r < b) by (nonlinear_arith)
        requires
            b >= 1,
            q == a / b,
            r == a % b,
    ;
    if r == 0 {
        assert(ceil_div(a, b) == q);
        assert(a > 0 ==> q >= 1) by (nonlinear_arith)
            requires
                a == q * b + r,
                r == 0,
                b >= 1,
                q >= 0,
        ;
        assert((q - 1) * b == q * b - b) by (nonlinear_arith);
    } else {
        assert(q < u32::MAX) by (nonlinear_arith)
            requires
                a == q * b + r,
                0 < r < b,
                a <= u32::MAX,
                q >= 0,
        ;
        assert(ceil_div(a, b) == q + 1);
        assert((q + 1) * b == q * b + b) by (nonlinear_arith);
    }
}

/// `dispatch(x, y, z, threads)`: the workgroup counts to dispatch for an entry point of
/// workgroup size `workgroup_size`.
pub fn workgroup_counts(x: u32, y: u32, z: u32, threads: bool, workgroup_size: [u32; 3]) -> (r: [u32; 3])
    requires
        threads ==> workgroup_size[0] >= 1 && workgroup_size[1] >= 1 && workgroup_size[2] >= 1,
    ensures
        r == workgroup_counts_spec(x, y, z, threads, workgroup_size),
{
    if threads {
        let gx = ceil_div_of(x, workgroup_size[0]);
        let gy = ceil_div_of(at_least_one_of(y), workgroup_size[1]);
        let gz = ceil_div_of(at_least_one_of(z), workgroup_size[2]);
        [at_least_one_of(gx), at_least_one_of(gy), at_least_one_of(gz)]
    } else {
        [at_least_one_of(x), at_least_one_of(y), at_least_one_of(z)]
    }
}

/// What the resource table holds under a buffer id: nothing (or no buffer), a buffer whose
/// stride is not known yet (so it has no GPU buffer), or a buffer of the given byte size.
#[derive(PartialEq, Eq, Structural, Clone, Copy, Debug)]
pub enum BufferLookup {
    Missing,
    Unsized,
    Sized(u64),
}

/// The error for an indirect-argument buffer whose stride is not known yet.
pub open spec fn unsized_indirect_message() -> Seq<char> {
    "indirect バッファのストライドが未確定です（先にカーネルへ bind するか、gpu.buffer(n, stride) で作ってください）"@
}

/// The outcome of checking `need` bytes of indirect arguments at `offset`.
pub open spec fn indirect_outcome(buffer: BufferLookup, offset: u64, need: u64) -> Result<(), Seq<char>> {
    match buffer {
        BufferLookup::Missing => Err("不正な indirect バッファ id"@),
        BufferLookup::Unsized => Err(unsized_indirect_message()),
        BufferLookup::Sized(size) => if offset % 4 != 0 {
            Err("indirect のバイトオフセットは 4 の倍数が必要です: "@ + decimal(offset as nat))
        } else if offset + need > size {
            Err(
                "indirect 引数がバッファ外です: オフセット "@ + decimal(offset as nat) + " + "@
                    + decimal(need as nat) + " バイト（バッファは "@ + decimal(size as nat)
                    + " バイト）"@,
            )
        } else {
            Ok(())
        },
    }
}

/// An indirect dispatch or draw reads `need` bytes at `offset`: the buffer must exist and
/// have its GPU buffer, and the bytes must lie inside it at a multiple of 4.
pub fn check_indirect_args(buffer: BufferLookup, offset: u64, need: u64) -> (r: Result<(), String>)
    requires
        offset + need <= u64::MAX,
    ensures
        crate::engine::text_result(r) == indirect_outcome(buffer, offset, need),
{
    match buffer {
        BufferLookup::Missing => Err(String::from_str("不正な indirect バッファ id")),
        BufferLookup::Unsized => Err(
            String::from_str(
                "indirect バッファのストライドが未確定です（先にカーネルへ bind するか、gpu.buffer(n, stride) で作ってください）",
            ),
        ),
        BufferLookup::Sized(size) => {
            if offset % 4 != 0 {
                let mut m = String::from_str("indirect のバイトオフセットは 4 の倍数が必要です: ");
                push_decimal(&mut m, offset);
                Err(m)
            } else if offset + need > size {
                let mut m = String::from_str("indirect 引数がバッファ外です: オフセット ");
                push_decimal(&mut m, offset);
                m.append(" + ");
                push_decimal(&mut m, need);
                m.append(" バイト（バッファは ");
                push_decimal(&mut m, size);
                m.append(" バイト）");
                Err(m)
            } else {
                Ok(())
            }
        },
    }
}

/// The error for a copy offset or size that is not a multiple of 4.
pub open spec fn copy_alignment_message(src_offset: u64, dst_offset: u64, byte_count: u64) -> Seq<char> {
    "コピーのオフセット・バイト数は 4 の倍数が必要です: srcOffset="@ + decimal(src_offset as nat)
        + ", dstOffset="@ + decimal(dst_offset as nat) + ", byteCount="@ + decimal(
        byte_count as nat,
    )
}

/// The size of one side of a copy, or why it has none (`what` names the side).
pub open spec fn copy_side(buffer: BufferLookup, what: Seq<char>) -> Result<u64, Seq<char>> {
    match buffer {
        BufferLookup::Missing => Err("不正な"@ + what + "バッファ id"@),
        BufferLookup::Unsized => Err(
            what
                + "バッファのストライドが未確定です（先にカーネルへ bind するか、gpu.buffer(n, stride) で作ってください）"@,
        ),
        BufferLookup::Sized(size) => Ok(size),
    }
}

/// The error for a copy range outside one side (`what` names the side).
pub open spec fn copy_range_message(what: Seq<char>, offset: u64, byte_count: u64, size: u64) -> Seq<char> {
    "コピー範囲が"@ + what + "を超えています: オフセット "@ + decimal(offset as nat) + " + "@
        + decimal(byte_count as nat) + " バイト（バッファは "@ + decimal(size as nat) + " バイト）"@
}

/// The outcome of checking a buffer-to-buffer copy, in the order the checks are made.
pub open spec fn copy_outcome(
    src: BufferLookup,
    src_offset: u64,
    dst: BufferLookup,
    dst_offset: u64,
    byte_count: u64,
    same_buffer: bool,
) -> Result<(), Seq<char>> {
    if src_offset % 4 != 0 || dst_offset % 4 != 0 || byte_count % 4 != 0 {
        Err(copy_alignment_message(src_offset, dst_offset, byte_count))
    } else if same_buffer {
        Err("同じバッファ内でのコピーはできません"@)
    } else {
        match copy_side(src, "コピー元"@) {
            Err(e) => Err(e),
            Ok(src_size) => match copy_side(dst, "コピー先"@) {
                Err(e) => Err(e),
                Ok(dst_size) => if src_offset + byte_count > src_size {
                    Err(copy_range_message("コピー元"@, src_offset, byte_count, src_size))
                } else if dst_offset + byte_count > dst_size {
                    Err(copy_range_message("コピー先"@, dst_offset, byte_count, dst_size))
                } else {
                    Ok(())
                },
            },
        }
    }
}

fn copy_side_of(buffer: BufferLookup, what: &str) -> (r: Result<u64, String>)
    ensures
        crate::engine::text_result(r) == copy_side(buffer, what@),
{
    match buffer {
        BufferLookup::Missing => {
            let mut m = String::from_str("不正な");
            m.append(what);
            m.append("バッファ id");
            Err(m)
        },
        BufferLookup::Unsized => {
            let mut m = String::from_str(what);
            m.append(
                "バッファのストライドが未確定です（先にカーネルへ bind するか、gpu.buffer(n, stride) で作ってください）",
            );
            Err(m)
        },
        BufferLookup::Sized(size) => Ok(size),
    }
}

fn copy_range_error(what: &str, offset: u64, byte_count: u64, size: u64) -> (m: String)
    ensures
        m@ == copy_range_message(what@, offset, byte_count, size),
{
    let mut m = String::from_str("コピー範囲が");
    m.append(what);
    m.append("を超えています: オフセット ");
    push_decimal(&mut m, offset);
    m.append(" + ");
    push_decimal(&mut m, byte_count);
    m.append(" バイト（バッファは ");
    push_decimal(&mut m, size);
    m.append(" バイト）");
    m
}

/// `copyBufferToBuffer(src, srcOffset, dst, dstOffset, byteCount)`: offsets and size are
/// multiples of 4, the two buffers differ, both have their GPU buffers, and both ranges fit.
/// (A copy of 0 bytes passes and records nothing.)
pub fn check_copy(
    src: BufferLookup,
    src_offset: u64,
    dst: BufferLookup,
    dst_offset: u64,
    byte_count: u64,
    same_buffer: bool,
) -> (r: Result<(), String>)
    requires
        src_offset + byte_count <= u64::MAX,
        dst_offset + byte_count <= u64::MAX,
    ensures
        crate::engine::text_result(r) == copy_outcome(src, src_offset, dst, dst_offset, byte_count, same_buffer),
{
    if src_offset % 4 != 0 || dst_offset % 4 != 0 || byte_count % 4 != 0 {
        let mut m = String::from_str("コピーのオフセット・バイト数は 4 の倍数が必要です: srcOffset=");
        push_decimal(&mut m, src_offset);
        m.append(", dstOffset=");
        push_decimal(&mut m, dst_offset);
        m.append(", byteCount=");
        push_decimal(&mut m, byte_count);
        return Err(m);
    }
    if same_buffer {
        return Err(String::from_str("同じバッファ内でのコピーはできません"));
    }
    let src_size = match copy_side_of(src, "コピー元") {
        Ok(s) => s,
        Err(e) => return Err(e),
    };
    let dst_size = match copy_side_of(dst, "コピー先") {
        Ok(s) => s,
        Err(e) => return Err(e),
    };
    if src_offset + byte_count > src_size {
        return Err(copy_range_error("コピー元", src_offset, byte_count, src_size));
    }
    if dst_offset + byte_count > dst_size {
        return Err(copy_range_error("コピー先", dst_offset, byte_count, dst_size));
    }
    Ok(())
}

/// The error for an upload with too few bytes.
pub open spec fn short_data_message(len: nat, w: u32, h: u32, format: TextureFormat, expected: nat) -> Seq<char> {
    "データが足りません: "@ + decimal(len) + " バイト（"@ + decimal(w as nat) + "x"@ + decimal(h as nat)
        + " の "@ + format_name(format) + " には "@ + decimal(expected) + " バイト必要）"@
}

fn short_data_error(len: usize, w: u32, h: u32, format: TextureFormat, expected: usize) -> (m: String)
    ensures
        m@ == short_data_message(len as nat, w, h, format, expected as nat),
{
    let mut m = String::from_str("データが足りません: ");
    push_decimal(&mut m, len as u64);
    m.append(" バイト（");
    push_decimal(&mut m, w as u64);
    m.append("x");
    push_decimal(&mut m, h as u64);
    m.append(" の ");
    m.append(format.name());
    m.append(" には ");
    push_decimal(&mut m, expected as u64);
    m.append(" バイト必要）");
    m
}

/// `texture.write(data)` of the whole first level of a `w × h` texture: at least
/// `w * h * bytes_per_pixel` bytes are needed, and that many are uploaded.
pub fn check_texture_write(w: u32, h: u32, format: TextureFormat, len: usize, bytes_per_pixel: u32) -> (r: Result<usize, String>)
    requires
        bytes_per_pixel >= 1,
        w * h * bytes_per_pixel <= usize::MAX,
    ensures
        len >= w * h * bytes_per_pixel <==> r is Ok,
        r matches Ok(n) ==> n == w * h * bytes_per_pixel,
        r matches Err(m) ==> m@ == short_data_message(len as nat, w, h, format, (w * h * bytes_per_pixel) as nat),
{
    assert(w * h <= w * h * bytes_per_pixel) by (nonlinear_arith)
        requires
            bytes_per_pixel >= 1,
    ;
    let expected = w as usize * h as usize * bytes_per_pixel as usize;
    if len < expected {
        return Err(short_data_error(len, w, h, format, expected));
    }
    Ok(expected)
}

/// The extent of mip level `mip` of a side of `size` texels: halved per level, at least 1.
pub open spec fn mip_extent(size: u32, mip: u32) -> u32 {
    at_least_one(size >> mip)
}

/// One face (`layer`) and one mip level of a texture: what is uploaded there.
#[derive(PartialEq, Eq, Structural, Clone, Copy, Debug)]
pub struct LayerWrite {
    pub width: u32,
    pub height: u32,
    pub bytes: usize,
}

/// The error for a face or level the texture does not have.
pub open spec fn no_layer_message(layer: u32, mip: u32, layers: u32, mips: u32) -> Seq<char> {
    "面 "@ + decimal(layer as nat) + " 段 "@ + decimal(mip as nat) + " はありません（面 "@ + decimal(
        layers as nat,
    ) + "、段 "@ + decimal(mips as nat) + "）"@
}

/// `texture.write(layer, mip, data)`: a cube texture has six faces, any other one; level
/// `mip` is `mip_extent(w, mip) × mip_extent(h, mip)` texels, and at least that many pixels'
/// bytes are needed.
pub fn check_layer_write(
    w: u32,
    h: u32,
    format: TextureFormat,
    cube: bool,
    mips: u32,
    layer: u32,
    mip: u32,
    len: usize,
    bytes_per_pixel: u32,
) -> (r: Result<LayerWrite, String>)
    requires
        mips <= 32,
        w >= 1,
        h >= 1,
        bytes_per_pixel >= 1,
        w * h * bytes_per_pixel <= usize::MAX,
    ensures
        ({
            let layers: u32 = if cube { 6 } else { 1 };
            let mw = mip_extent(w, mip);
            let mh = mip_extent(h, mip);
            if layer >= layers || mip >= mips {
                r matches Err(m) && m@ == no_layer_message(layer, mip, layers, mips)
            } else if len < mw * mh * bytes_per_pixel {
                r matches Err(m) && m@ == short_data_message(len as nat, mw, mh, format, (mw * mh * bytes_per_pixel) as nat)
            } else {
                r matches Ok(lw) && lw.width == mw && lw.height == mh && lw.bytes == mw * mh * bytes_per_pixel
            }
        }),
{
    let layers: u32 = if cube { 6 } else { 1 };
    if layer >= layers || mip >= mips {
        let mut m = String::from_str("面 ");
        push_decimal(&mut m, layer as u64);
        m.append(" 段 ");
        push_decimal(&mut m, mip as u64);
        m.append(" はありません（面 ");
        push_decimal(&mut m, layers as u64);
        m.append("、段 ");
        push_decimal(&mut m, mips as u64);
        m.append("）");
        return Err(m);
    }
    let mw = at_least_one_of(w >> mip);
    let mh = at_least_one_of(h >> mip);
    assert((w >> mip) <= w) by (bit_vector);
    assert((h >> mip) <= h) by (bit_vector);
    assert(mw * mh <= mw * mh * bytes_per_pixel <= w * h * bytes_per_pixel) by (nonlinear_arith)
        requires
            1 <= mw <= w,
            1 <= mh <= h,
            bytes_per_pixel >= 1,
    ;
    let expected = mw as usize * mh as usize * bytes_per_pixel as usize;
    if len < expected {
        return Err(short_data_error(len, mw, mh, format, expected));
    }
    Ok(LayerWrite { width: mw, height: mh, bytes: expected })
}

/// What the resource table holds under an index-buffer id.
#[derive(PartialEq, Eq, Structural, Clone, Copy, Debug)]
pub enum IndexLookup {
    /// No buffer under that id.
    Missing,
    /// A buffer: its stride once known, whether its GPU buffer exists, its element count.
    Buffer { stride: Option<u32>, realized: bool, element_count: u32 },
}

/// The outcome of checking an index buffer for `count` indices from `first`.
pub open spec fn index_buffer_outcome(index: IndexLookup, first: u32, count: u32) -> Result<(), Seq<char>> {
    match index {
        IndexLookup::Missing => Err("不正なインデックスバッファ id"@),
        IndexLookup::Buffer { stride: None, .. } => Err(
            "インデックスバッファのストライドが未確定です。gpu.buffer(n, 4) で作るか、先に array<u32> としてカーネルへ bind してください"@,
        ),
        IndexLookup::Buffer { stride: Some(s), realized, element_count } => if s == 4 && realized {
            let end: u32 = if first + count > u32::MAX { u32::MAX } else { (first + count) as u32 };
            if end > element_count {
                Err(
                    "インデックス範囲がバッファ外です: "@ + decimal(first as nat) + ".."@ + decimal(end as nat)
                        + " (要素数 "@ + decimal(element_count as nat) + ")"@,
                )
            } else {
                Ok(())
            }
        } else {
            Err(
                "インデックスに使うバッファはストライド 4（u32）が必要です（このバッファは "@ + decimal(
                    s as nat,
                ) + " バイト）"@,
            )
        },
    }
}

/// An indexed draw reads `count` u32 indices from element `first`: the buffer must have
/// stride 4 and its GPU buffer, and the range (its end saturating at `u32::MAX`) must fit.
pub fn check_index_buffer(index: IndexLookup, first: u32, count: u32) -> (r: Result<(), String>)
    ensures
        crate::engine::text_result(r) == index_buffer_outcome(index, first, count),
{
    match index {
        IndexLookup::Missing => Err(String::from_str("不正なインデックスバッファ id")),
        IndexLookup::Buffer { stride: None, .. } => Err(
            String::from_str(
                "インデックスバッファのストライドが未確定です。gpu.buffer(n, 4) で作るか、先に array<u32> としてカーネルへ bind してください",
            ),
        ),
        IndexLookup::Buffer { stride: Some(s), realized, element_count } => {
            if s == 4 && realized {
                let end = first.saturating_add(count);
                if end > element_count {
                    let mut m = String::from_str("インデックス範囲がバッファ外です: ");
                    push_decimal(&mut m, first as u64);
                    m.append("..");
                    push_decimal(&mut m, end as u64);
                    m.append(" (要素数 ");
                    push_decimal(&mut m, element_count as u64);
                    m.append(")");
                    Err(m)
                } else {
                    Ok(())
                }
            } else {
                let mut m = String::from_str("インデックスに使うバッファはストライド 4（u32）が必要です（このバッファは ");
                push_decimal(&mut m, s as u64);
                m.append(" バイト）");
                Err(m)
            }
        },
    }
}

/// The outcome of checking a scissor rectangle `[x, y, w, h]`: negative positions and
/// empty sizes are refused.
pub open spec fn scissor_outcome(scissor: Option<[i32; 4]>) -> Result<Option<[u32; 4]>, Seq<char>> {
    match scissor {
        None => Ok(None),
        Some(s) => if s[0] < 0 || s[1] < 0 || s[2] <= 0 || s[3] <= 0 {
            Err(
                "不正なシザー矩形: ("@ + signed_decimal(s[0] as int) + ", "@ + signed_decimal(s[1] as int)
                    + ", "@ + signed_decimal(s[2] as int) + ", "@ + signed_decimal(s[3] as int) + ")"@,
            )
        } else {
            Ok(Some([s[0] as u32, s[1] as u32, s[2] as u32, s[3] as u32]))
        },
    }
}

/// A draw's scissor rectangle, checked; the part outside the target is clipped when the
/// pass is recorded.
pub fn check_scissor(scissor: Option<[i32; 4]>) -> (r: Result<Option<[u32; 4]>, String>)
    ensures
        crate::engine::text_result(r) == scissor_outcome(scissor),
{
    match scissor {
        None => Ok(None),
        Some(s) => {
            if s[0] < 0 || s[1] < 0 || s[2] <= 0 || s[3] <= 0 {
                let mut m = String::from_str("不正なシザー矩形: (");
                push_signed(&mut m, s[0] as i64);
                m.append(", ");
                push_signed(&mut m, s[1] as i64);
                m.append(", ");
                push_signed(&mut m, s[2] as i64);
                m.append(", ");
                push_signed(&mut m, s[3] as i64);
                m.append(")");
                Err(m)
            } else {
                Ok(Some([s[0] as u32, s[1] as u32, s[2] as u32, s[3] as u32]))
            }
        },
    }
}

/// The smaller of two counts.
pub open spec fn min_u32(a: u32, b: u32) -> u32 {
    if a <= b {
        a
    } else {
        b
    }
}

/// The scissor rectangle a recorded draw gets on a `tw × th` target: the whole target
/// without one; otherwise the rectangle clipped to the target, or nothing (the draw is
/// skipped) when nothing of it is left.
pub open spec fn clipped_scissor(scissor: Option<[u32; 4]>, tw: u32, th: u32) -> Option<[u32; 4]> {
    match scissor {
        None => Some([0, 0, tw, th]),
        Some(s) => {
            let x = min_u32(s[0], tw);
            let y = min_u32(s[1], th);
            let w = min_u32(s[2], (tw - x) as u32);
            let h = min_u32(s[3], (th - y) as u32);
            if w == 0 || h == 0 {
                None
            } else {
                Some([x, y, w, h])
            }
        },
    }
}

/// The scissor rectangle for a recorded draw on a `tw × th` target, or `None` when the draw
/// has nothing left to cover.
pub fn clip_scissor(scissor: Option<[u32; 4]>, tw: u32, th: u32) -> (r: Option<[u32; 4]>)
    ensures
        r == clipped_scissor(scissor, tw, th),
        r matches Some(s) ==> s[0] + s[2] <= tw && s[1] + s[3] <= th,
{
    match scissor {
        None => Some([0, 0, tw, th]),
        Some(s) => {
            let x = if s[0] <= tw { s[0] } else { tw };
            let y = if s[1] <= th { s[1] } else { th };
            let w = if s[2] <= tw - x { s[2] } else { tw - x };
            let h = if s[3] <= th - y { s[3] } else { th - y };
            if w == 0 || h == 0 {
                None
            } else {
                Some([x, y, w, h])
            }
        },
    }
}

/// The draws waiting to be recorded as one render pass: its target, whether it has a
/// depth attachment (unknown until its first draw), and the renderer of its last draw.
#[derive(PartialEq, Eq, Structural, Clone, Copy, Debug)]
pub struct PassKey {
    pub target: u64,
    pub depth: Option<bool>,
    pub last_renderer: Option<u64>,
}

/// Whether a draw joins the waiting pass: same target, a depth setting that agrees (or is
/// still open), and, while timings are measured, the same renderer as the last draw.
pub open spec fn joins_pass(pending: Option<PassKey>, target: u64, depth_test: bool, profiling: bool, renderer: u64) -> bool {
    match pending {
        None => false,
        Some(p) => {
            &&& p.target == target
            &&& (p.depth is None || p.depth == Some(depth_test))
            &&& (!profiling || p.last_renderer is None || p.last_renderer == Some(renderer))
        },
    }
}

/// Whether a draw on `target` can be added to the waiting pass instead of starting a new one.
pub fn pass_compatible(pending: Option<PassKey>, target: u64, depth_test: bool, profiling: bool, renderer: u64) -> (r: bool)
    ensures
        r == joins_pass(pending, target, depth_test, profiling, renderer),
{
    match pending {
        None => false,
        Some(p) => {
            let depth_ok = match p.depth {
                None => true,
                Some(d) => d == depth_test,
            };
            let renderer_ok = match p.last_renderer {
                None => true,
                Some(r) => r == renderer,
            };
            p.target == target && depth_ok && (!profiling || renderer_ok)
        },
    }
}

/// Whether the depth texture kept for a target must be (re)created for a `w × h` target.
pub fn depth_stale(kept: Option<(u32, u32)>, w: u32, h: u32) -> (r: bool)
    ensures
        r == match kept {
            Some((dw, dh)) => dw != w || dh != h,
            None => true,
        },
{
    match kept {
        Some((dw, dh)) => dw != w || dh != h,
        None => true,
    }
}

/// A cleared pass without depth still owes its target's kept depth texture a clear.
pub fn needs_depth_clear(cleared: bool, pass_has_depth: bool, depth_kept: bool) -> (r: bool)
    ensures
        r == (cleared && !pass_has_depth && depth_kept),
{
    cleared && !pass_has_depth && depth_kept
}

/// How a renderer assembles primitives.
#[derive(PartialEq, Eq, Structural, Clone, Copy, Debug)]
pub enum Topology {
    TriangleList,
    LineList,
    PointList,
    TriangleStrip,
    LineStrip,
}

/// How a renderer combines its output with the target.
#[derive(PartialEq, Eq, Structural, Clone, Copy, Debug)]
pub enum Blend {
    /// Overwrite.
    Replace,
    /// Alpha blending.
    Alpha,
    /// `src + dst` for colour and alpha.
    Additive,
}

/// The outcome of `renderer.config(topology, blend, depthTest)`.
pub open spec fn config_outcome(topology: u8, blend: u8) -> Result<(), Seq<char>> {
    if topology > 4 {
        Err("不正なトポロジ番号: "@ + decimal(topology as nat))
    } else if blend > 2 {
        Err("不正なブレンド番号: "@ + decimal(blend as nat))
    } else {
        Ok(())
    }
}

/// Topologies are numbered 0 to 4 and blend modes 0 to 2.
pub fn check_renderer_config(topology: u8, blend: u8) -> (r: Result<(), String>)
    ensures
        crate::engine::text_result(r) == config_outcome(topology, blend),
{
    if topology > 4 {
        let mut m = String::from_str("不正なトポロジ番号: ");
        push_decimal(&mut m, topology as u64);
        return Err(m);
    }
    if blend > 2 {
        let mut m = String::from_str("不正なブレンド番号: ");
        push_decimal(&mut m, blend as u64);
        return Err(m);
    }
    Ok(())
}

/// The topology numbered `t` (1 line list, 2 point list, 3 triangle strip, 4 line strip,
/// any other a triangle list).
pub open spec fn topology_spec(t: u8) -> Topology {
    if t == 1 {
        Topology::LineList
    } else if t == 2 {
        Topology::PointList
    } else if t == 3 {
        Topology::TriangleStrip
    } else if t == 4 {
        Topology::LineStrip
    } else {
        Topology::TriangleList
    }
}

/// The topology numbered `t`.
pub fn topology_of(t: u8) -> (r: Topology)
    ensures
        r == topology_spec(t),
{
    if t == 1 {
        Topology::LineList
    } else if t == 2 {
        Topology::PointList
    } else if t == 3 {
        Topology::TriangleStrip
    } else if t == 4 {
        Topology::LineStrip
    } else {
        Topology::TriangleList
    }
}

/// Strip topologies need an index format (u32, where `0xFFFFFFFF` restarts the strip).
pub fn needs_strip_index(t: Topology) -> (r: bool)
    ensures
        r == (t == Topology::TriangleStrip || t == Topology::LineStrip),
{
    match t {
        Topology::TriangleStrip | Topology::LineStrip => true,
        _ => false,
    }
}

/// The blend mode numbered `b` (1 alpha, 2 additive, any other replace).
pub fn blend_of(b: u8) -> (r: Blend)
    ensures
        r == (if b == 1 {
            Blend::Alpha
        } else if b == 2 {
            Blend::Additive
        } else {
            Blend::Replace
        }),
{
    if b == 1 {
        Blend::Alpha
    } else if b == 2 {
        Blend::Additive
    } else {
        Blend::Replace
    }
}

/// The next pair of timestamp slots (begin, end) for a measured pass, when `used` passes
/// already hold slots out of `capacity`; none once the query set is full.
pub fn profile_slot(used: u32, capacity: u32) -> (r: Option<(u32, u32)>)
    ensures
        2 * used + 2 > capacity ==> r is None,
        2 * used + 2 <= capacity ==> r == Some(((2 * used) as u32, (2 * used + 1) as u32)),
{
    let begin = used as u64 * 2;
    if begin + 2 > capacity as u64 {
        return None;
    }
    Some((begin as u32, (begin + 1) as u32))
}

/// Some of the first `t` items of `hits` is `k`.
pub open spec fn listed_before(hits: Seq<u32>, t: int, k: u32) -> bool {
    exists|u: int| 0 <= u < t && #[trigger] hits[u] == k
}

/// `bound` without the entries whose resource is `id`.
pub open spec fn without_resource(bound: Map<u32, u64>, id: u64) -> Map<u32, u64> {
    Map::new(|k: u32| bound.contains_key(k) && bound[k] != id, |k: u32| bound[k])
}

/// Releasing resource `id`: every binding slot that refers to it is cleared. Returns whether
/// any did (then the cached bind group and pipelines built on it are dropped too).
pub fn unbind_resource(bound: &mut HashMap<u32, u64>, id: u64) -> (r: bool)
    ensures
        final(bound)@ == without_resource(old(bound)@, id),
        r == exists|k: u32| old(bound)@.contains_key(k) && old(bound)@[k] == id,
{
    broadcast use vstd::std_specs::hash::group_hash_axioms;

    let ghost start = bound@;
    let mut hits: Vec<u32> = Vec::new();
    for entry in it: bound.iter()
        invariant
            start == bound@,
            it.seq() == spec_hash_map_iter(bound).remaining(),
            forall|t: int| 0 <= t < hits@.len() ==> start.contains_key(#[trigger] hits@[t]) && start[hits@[t]] == id,
            forall|j: int|
                0 <= j < it.index() && *it.seq()[j].1 == id ==> hits@.contains(*#[trigger] it.seq()[j].0),
    {
        let ghost idx = it.index();
        let ghost old_hits = hits@;
        let (k, v) = entry;
        if *v == id {
            hits.push(*k);
            assert(hits@[hits@.len() - 1] == *k);
        }
        assert forall|x: u32| old_hits.contains(x) implies hits@.contains(x) by {
            let u = choose|u: int| 0 <= u < old_hits.len() && old_hits[u] == x;
            assert(hits@[u] == x);
        }
        assert(it.seq()[idx] == entry);
    }
    proof {
        let items = spec_hash_map_iter(bound).remaining();
        assert forall|k: u32| start.contains_key(k) && start[k] == id implies hits@.contains(k) by {
            assert(items.contains((&k, &start[k])));
            let j = choose|j: int| 0 <= j < items.len() && items[j] == (&k, &start[k]);
            assert(*items[j].0 == k);
        }
    }
    let found = hits.len() > 0;
    let mut t: usize = 0;
    while t < hits.len()
        invariant
            t <= hits@.len(),
            forall|u: int| 0 <= u < hits@.len() ==> start.contains_key(#[trigger] hits@[u]) && start[hits@[u]] == id,
            forall|k: u32| start.contains_key(k) && start[k] == id ==> hits@.contains(k),
            forall|k: u32|
                #[trigger] bound@.contains_key(k) <==> start.contains_key(k) && !listed_before(hits@, t as int, k),
            forall|k: u32| bound@.contains_key(k) ==> bound@[k] == start[k],
        decreases hits@.len() - t,
    {
        let k = hits[t];
        bound.remove(&k);
        assert forall|j: u32| #[trigger] listed_before(hits@, t + 1, j) <==> listed_before(hits@, t as int, j) || j == k by {
            if j == k {
                assert(hits@[t as int] == j);
            }
        }
        t += 1;
    }
    assert(bound@ =~= without_resource(start, id)) by {
        assert forall|k: u32| #[trigger] bound@.contains_key(k) <==> without_resource(start, id).contains_key(k) by {
            if start.contains_key(k) && start[k] != id && listed_before(hits@, hits@.len() as int, k) {
                let u = choose|u: int| 0 <= u < hits@.len() && #[trigger] hits@[u] == k;
                assert(start[hits@[u]] == id);
            }
            if start.contains_key(k) && start[k] == id {
                assert(hits@.contains(k));
                let u = choose|u: int| 0 <= u < hits@.len() && #[trigger] hits@[u] == k;
                assert(listed_before(hits@, hits@.len() as int, k));
            }
        }
    }
    proof {
        if found {
            let k0 = hits@[0];
            assert(start.contains_key(k0) && start[k0] == id);
        } else {
            assert forall|k: u32| !(start.contains_key(k) && start[k] == id) by {
                if start.contains_key(k) && start[k] == id {
                    assert(hits@.contains(k));
                }
            }
        }
    }
    found
}

} // verus!
