//! Writing struct members by name into CPU-side byte images (a uniform's staging bytes or a
//! storage buffer's mirror), and the values set before a layout is known.
//!
//! A float travels as its IEEE-754 bit pattern (`f32::to_bits`): the bytes written are the
//! little-endian bytes of that pattern, which is what `f32::to_le_bytes` produces.
use crate::engine::{align_up, aligned_up, check_member_set, member_set_outcome, member_width, text_result};
use crate::text::{decimal, push_decimal};
use crate::reflect::{MemberKind, StructLayout};
use vstd::prelude::*;

verus! {

/// The little-endian bytes of a 32-bit word.
pub open spec fn le_bytes(w: u32) -> Seq<u8> {
    seq![
        (w % 256) as u8,
        (w / 256 % 256) as u8,
        (w / 65536 % 256) as u8,
        (w / 16777216) as u8,
    ]
}

/// The little-endian bytes of each word, one after the other.
pub open spec fn encode_words(ws: Seq<u32>) -> Seq<u8>
    decreases ws.len(),
{
    if ws.len() == 0 {
        Seq::empty()
    } else {
        encode_words(ws.drop_last()) + le_bytes(ws.last())
    }
}

/// The word whose little-endian bytes start at `pos`.
pub open spec fn word_at(bytes: Seq<u8>, pos: int) -> int {
    bytes[pos] + 256 * bytes[pos + 1] + 65536 * bytes[pos + 2] + 16777216 * bytes[pos + 3]
}

/// `bytes` with `data` written over it from `pos` on.
pub open spec fn splice(bytes: Seq<u8>, pos: int, data: Seq<u8>) -> Seq<u8> {
    bytes.subrange(0, pos) + data + bytes.subrange(pos + data.len(), bytes.len() as int)
}

/// The words written for a member: the float bit patterns, or the int's two's-complement word.
pub open spec fn member_words(float_bits: Seq<u32>, int_value: Option<i32>) -> Seq<u32> {
    match int_value {
        Some(v) => seq![v as u32],
        None => float_bits,
    }
}

/// The number of values passed for a member: one for an int, else the number of floats.
pub open spec fn value_count(float_bits: Seq<u32>, int_value: Option<i32>) -> nat {
    match int_value {
        Some(_) => 1,
        None => float_bits.len(),
    }
}

/// Every member lies inside the struct.
pub open spec fn layout_fits(layout: StructLayout) -> bool {
    forall|k: int|
        0 <= k < layout.members@.len() ==> #[trigger] layout.members@[k].offset + member_width(
            layout.members@[k].kind,
        ) <= layout.size
}

/// Whether every member of `layout` lies inside the struct (the front end lays structs out
/// so; a caller holding a layout from elsewhere checks it before binding).
pub fn check_layout_fits(layout: &StructLayout) -> (r: bool)
    ensures
        r == layout_fits(*layout),
{
    let mut k: usize = 0;
    while k < layout.members.len()
        invariant
            k <= layout.members@.len(),
            forall|j: int|
                0 <= j < k ==> #[trigger] layout.members@[j].offset + member_width(layout.members@[j].kind)
                    <= layout.size,
        decreases layout.members@.len() - k,
    {
        let m = &layout.members[k];
        let width: u64 = match m.kind {
            MemberKind::F32 | MemberKind::I32 | MemberKind::U32 => 4,
            MemberKind::VecF(n) => 4 * n as u64,
            MemberKind::Mat4 => 64,
        };
        if m.offset as u64 + width > layout.size as u64 {
            return false;
        }
        k += 1;
    }
    true
}

/// The byte image after `set(member, values)` at struct start `base`, or the error.
pub open spec fn member_write(
    layout: StructLayout,
    bytes: Seq<u8>,
    base: int,
    member: Seq<char>,
    float_bits: Seq<u32>,
    int_value: Option<i32>,
) -> (Seq<u8>, Result<(), Seq<char>>) {
    match member_set_outcome(
        layout,
        member,
        value_count(float_bits, int_value),
        int_value is Some,
    ) {
        Ok((offset, _)) => (
            splice(bytes, base + offset, encode_words(member_words(float_bits, int_value))),
            Ok(()),
        ),
        Err(e) => (bytes, Err(e)),
    }
}

proof fn lemma_encode_len(ws: Seq<u32>)
    ensures
        encode_words(ws).len() == 4 * ws.len(),
    decreases ws.len(),
{
    if ws.len() > 0 {
        lemma_encode_len(ws.drop_last());
    }
}

proof fn lemma_encode_push(ws: Seq<u32>, n: int)
    requires
        0 <= n < ws.len(),
    ensures
        encode_words(ws.take(n + 1)) == encode_words(ws.take(n)) + le_bytes(ws[n]),
{
    assert(ws.take(n + 1).drop_last() =~= ws.take(n));
}

/// A word's little-endian bytes read back as the word.
pub proof fn lemma_le_bytes_read_back(w: u32)
    ensures
        word_at(le_bytes(w), 0) == w,
{
    let b = le_bytes(w);
    assert(b[0] == w % 256 && b[1] == w / 256 % 256 && b[2] == w / 65536 % 256 && b[3] == w
        / 16777216);
    assert(w % 256 + 256 * (w / 256 % 256) + 65536 * (w / 65536 % 256) + 16777216 * (w / 16777216)
        == w) by (nonlinear_arith)
        requires
            0 <= w < 4294967296int,
    ;
}

/// After a member write, the member's bytes read back as the words written.
pub proof fn lemma_member_reads_back(bytes: Seq<u8>, pos: int, ws: Seq<u32>, k: int)
    requires
        0 <= pos,
        pos + 4 * ws.len() <= bytes.len(),
        0 <= k < ws.len(),
    ensures
        word_at(splice(bytes, pos, encode_words(ws)), pos + 4 * k) == ws[k],
{
    lemma_encode_len(ws);
    lemma_encode_len(ws.take(k));
    lemma_encode_len(ws.take(k + 1));
    assert(ws.take(ws.len() as int) =~= ws);
    lemma_encode_prefix(ws, k + 1);
    lemma_encode_push(ws, k);
    lemma_le_bytes_read_back(ws[k]);
    let e = encode_words(ws);
    let s = splice(bytes, pos, e);
    assert forall|j: int| 0 <= j < 4 implies s[pos + 4 * k + j] == le_bytes(ws[k])[j] by {
        assert(s[pos + 4 * k + j] == e[4 * k + j]);
        assert(e[4 * k + j] == encode_words(ws.take(k + 1))[4 * k + j]);
    }
}

proof fn lemma_encode_prefix(ws: Seq<u32>, n: int)
    requires
        0 <= n <= ws.len(),
    ensures
        forall|j: int|
            0 <= j < 4 * n ==> #[trigger] encode_words(ws)[j] == encode_words(ws.take(n))[j],
    decreases ws.len() - n,
{
    lemma_encode_len(ws);
    lemma_encode_len(ws.take(n));
    if n < ws.len() {
        lemma_encode_prefix(ws, n + 1);
        lemma_encode_push(ws, n);
        lemma_encode_len(ws.take(n + 1));
    } else {
        assert(ws.take(n) =~= ws);
    }
}

/// Writes the words' little-endian bytes into `bytes` from `pos` on.
fn write_words(bytes: &mut Vec<u8>, pos: usize, ws: &[u32])
    requires
        pos + 4 * ws@.len() <= old(bytes)@.len(),
    ensures
        final(bytes)@ == splice(old(bytes)@, pos as int, encode_words(ws@)),
        final(bytes)@.len() == old(bytes)@.len(),
{
    let ghost start = bytes@;
    let total = bytes.len();
    let mut i: usize = 0;
    proof {
        lemma_encode_len(ws@.take(0));
        assert(splice(start, pos as int, encode_words(ws@.take(0))) =~= start);
    }
    while i < ws.len()
        invariant
            i <= ws@.len(),
            pos + 4 * ws@.len() <= start.len(),
            bytes@.len() == start.len(),
            total == start.len(),
            bytes@ == splice(start, pos as int, encode_words(ws@.take(i as int))),
        decreases ws@.len() - i,
    {
        let w = ws[i];
        let at = pos + 4 * i;
        proof {
            lemma_encode_len(ws@.take(i as int));
            lemma_encode_len(ws@.take(i + 1));
            lemma_encode_push(ws@, i as int);
        }
        bytes.set(at, (w % 256) as u8);
        bytes.set(at + 1, (w / 256 % 256) as u8);
        bytes.set(at + 2, (w / 65536 % 256) as u8);
        bytes.set(at + 3, (w / 16777216) as u8);
        assert(bytes@ =~= splice(start, pos as int, encode_words(ws@.take(i + 1))));
        i += 1;
    }
    assert(ws@.take(ws@.len() as int) =~= ws@);
}

/// `set(member, values)` on a byte image whose struct starts at `base`: checks the member
/// and the values (`check_member_set`), then writes their little-endian bytes at the
/// member's offset. On an error the bytes are unchanged.
pub fn write_member(
    layout: &StructLayout,
    bytes: &mut Vec<u8>,
    base: usize,
    member: &str,
    float_bits: &[u32],
    int_value: Option<i32>,
) -> (r: Result<(), String>)
    requires
        layout_fits(*layout),
        base + layout.size <= old(bytes)@.len(),
    ensures
        (final(bytes)@, text_result(r)) == member_write(
            *layout,
            old(bytes)@,
            base as int,
            member@,
            float_bits@,
            int_value,
        ),
        final(bytes)@.len() == old(bytes)@.len(),
{
    let is_int = int_value.is_some();
    let count = if is_int {
        1
    } else {
        float_bits.len()
    };
    let (offset, _len) = match check_member_set(layout, member, count, is_int) {
        Ok(v) => v,
        Err(e) => return Err(e),
    };
    proof {
        lemma_set_member_in_layout(*layout, member@, count as nat, is_int);
    }
    let total = bytes.len();
    assert(base + offset <= total);
    let off = base + offset as usize;
    match int_value {
        Some(v) => {
            let w = [#[verifier::truncate] (v as u32)];
            assert(w@ =~= member_words(float_bits@, int_value));
            write_words(bytes, off, &w);
        },
        None => {
            write_words(bytes, off, float_bits);
        },
    }
    Ok(())
}

/// A member that passes the check lies inside the struct, and the bytes written for it are
/// as many as the check reports.
proof fn lemma_set_member_in_layout(layout: StructLayout, member: Seq<char>, count: nat, is_int: bool)
    requires
        layout_fits(layout),
        member_set_outcome(layout, member, count, is_int) is Ok,
        is_int ==> count == 1,
    ensures
        member_set_outcome(layout, member, count, is_int) matches Ok((off, len)) && off + len
            <= layout.size && len == 4 * count,
{
    let names = crate::engine::member_names(layout);
    crate::names::lemma_resolution_in_range(names, member);
    match crate::names::resolution(names, member) {
        Ok(i) => {
            assert(0 <= i < layout.members@.len());
            let m = layout.members@[i];
            assert(m.offset + member_width(m.kind) <= layout.size);
            match m.kind {
                MemberKind::VecF(n) => {
                    assert(member_width(m.kind) == 4 * n);
                },
                _ => {},
            }
        },
        _ => {},
    }
}

/// A value set before the layout is known: float bit patterns, or one int.
#[derive(Debug)]
pub enum PendingValue {
    F(Vec<u32>),
    I(i32),
}

/// The float bit patterns and the int of a pending value.
pub open spec fn pending_parts(v: PendingValue) -> (Seq<u32>, Option<i32>) {
    match v {
        PendingValue::F(w) => (w@, None),
        PendingValue::I(i) => (Seq::empty(), Some(i)),
    }
}

impl PendingValue {
    /// Keeps the int when there is one, else the floats.
    pub fn new(float_bits: &[u32], int_value: Option<i32>) -> (v: PendingValue)
        ensures
            pending_parts(v) == (member_value_floats(float_bits@, int_value), int_value),
    {
        match int_value {
            Some(i) => PendingValue::I(i),
            None => PendingValue::F(vstd::slice::slice_to_vec(float_bits)),
        }
    }

    /// The floats (empty for an int) and the int.
    pub fn parts(&self) -> (r: (&[u32], Option<i32>))
        ensures
            (r.0@, r.1) == pending_parts(*self),
    {
        match self {
            PendingValue::F(v) => (v.as_slice(), None),
            PendingValue::I(i) => (&[], Some(*i)),
        }
    }
}

/// A queued value as plain data: the member name, the float bit patterns, the int.
pub type PendingView = (Seq<char>, Seq<u32>, Option<i32>);

/// The plain view of queued uniform values.
pub open spec fn uniform_items(items: Seq<(String, PendingValue)>) -> Seq<PendingView> {
    items.map_values(|it: (String, PendingValue)| (it.0@, pending_parts(it.1).0, pending_parts(it.1).1))
}

/// `items` without those that name `member`.
pub open spec fn without_member(items: Seq<PendingView>, member: Seq<char>) -> Seq<PendingView>
    decreases items.len(),
{
    if items.len() == 0 {
        Seq::empty()
    } else {
        let rest = without_member(items.drop_last(), member);
        if items.last().0 == member {
            rest
        } else {
            rest.push(items.last())
        }
    }
}

/// Dropping a member's queued values twice drops nothing more.
proof fn lemma_without_member_twice(items: Seq<PendingView>, member: Seq<char>)
    ensures
        without_member(without_member(items, member), member) == without_member(items, member),
    decreases items.len(),
{
    if items.len() > 0 {
        lemma_without_member_twice(items.drop_last(), member);
        let rest = without_member(items.drop_last(), member);
        if items.last().0 != member {
            assert(rest.push(items.last()).drop_last() == rest);
        }
    }
}

/// Before the first bind, a second `set` of the same member replaces the first: the queue
/// after both equals the queue after the second alone.
pub proof fn lemma_later_set_replaces(
    items: Seq<PendingView>,
    member: Seq<char>,
    first: (Seq<u32>, Option<i32>),
    second: (Seq<u32>, Option<i32>),
)
    ensures
        without_member(without_member(items, member).push((member, first.0, first.1)), member).push(
            (member, second.0, second.1),
        ) == without_member(items, member).push((member, second.0, second.1)),
{
    let once = without_member(items, member).push((member, first.0, first.1));
    assert(once.drop_last() == without_member(items, member));
    lemma_without_member_twice(items, member);
}

/// The prefix of the error for a uniform value that fails when its layout becomes known.
pub open spec fn uniform_pending_error(e: Seq<char>) -> Seq<char> {
    "bind 前に set() されていたメンバの適用に失敗: "@ + e
}

/// Applies queued uniform values in order to `bytes`; the first failure stops.
pub open spec fn apply_uniform_items(layout: StructLayout, bytes: Seq<u8>, items: Seq<PendingView>) -> (
    Seq<u8>,
    Result<(), Seq<char>>,
)
    decreases items.len(),
{
    if items.len() == 0 {
        (bytes, Ok(()))
    } else {
        let (b, r) = apply_uniform_items(layout, bytes, items.drop_last());
        match r {
            Err(e) => (b, Err(e)),
            Ok(()) => {
                let it = items.last();
                let (b2, r2) = member_write(layout, b, 0, it.0, it.1, it.2);
                (
                    b2,
                    match r2 {
                        Ok(()) => Ok(()),
                        Err(e) => Err(uniform_pending_error(e)),
                    },
                )
            },
        }
    }
}

pub(crate) fn copy_pending(v: &PendingValue) -> (c: PendingValue)
    ensures
        pending_parts(c) == pending_parts(*v),
{
    match v {
        PendingValue::F(w) => PendingValue::F(vstd::slice::slice_to_vec(w.as_slice())),
        PendingValue::I(i) => PendingValue::I(*i),
    }
}

/// The CPU side of a uniform: its layout once bound, its staging bytes, and the ring slot
/// bookkeeping. The GPU ring buffer itself is held beside it.
#[derive(Debug)]
pub struct UniformState {
    pub layout: Option<StructLayout>,
    pub staging: Vec<u8>,
    pub dirty: bool,
    pub slot_size: u32,
    /// The slot the bind group currently refers to.
    pub slot: u32,
    pub next_slot: u32,
    /// Values set before the first bind, in order; applied when the layout becomes known.
    pub pending: Vec<(String, PendingValue)>,
}

/// The number of ring slots: how many times a uniform can change within one frame.
pub const UNIFORM_SLOTS: u32 = 1024;

/// The dynamic-offset alignment of uniform ring slots.
pub const UNIFORM_ALIGN: u32 = 256;

impl UniformState {
    /// The staging bytes fit the layout once bound, and a bound uniform has nothing queued.
    pub open spec fn well_formed(&self) -> bool {
        &&& self.staging_fits()
        &&& self.layout is Some ==> self.pending@.len() == 0
    }

    /// Once bound, the layout fits in the staging bytes and every member lies inside it.
    pub open spec fn staging_fits(&self) -> bool {
        self.layout matches Some(l) ==> layout_fits(l) && l.size <= self.staging@.len()
    }

    /// A uniform that has never been bound.
    pub fn new() -> (u: UniformState)
        ensures
            u.layout is None,
            u.staging@.len() == 0,
            u.dirty,
            u.slot_size == 0,
            u.slot == 0,
            u.next_slot == 0,
            u.pending@.len() == 0,
            u.well_formed(),
    {
        UniformState {
            layout: None,
            staging: Vec::new(),
            dirty: true,
            slot_size: 0,
            slot: 0,
            next_slot: 0,
            pending: Vec::new(),
        }
    }

    /// `uniform.set(member, ...)`. Before the first bind the value is queued, replacing an
    /// earlier queued value of the same member; afterwards it is checked and written to the
    /// staging bytes, which become dirty.
    pub fn set_member(&mut self, member: &str, float_bits: &[u32], int_value: Option<i32>) -> (r:
        Result<(), String>)
        requires
            old(self).well_formed(),
        ensures
            final(self).well_formed(),
            final(self).layout == old(self).layout,
            final(self).slot_size == old(self).slot_size,
            final(self).slot == old(self).slot,
            final(self).next_slot == old(self).next_slot,
            match old(self).layout {
                None => {
                    &&& r is Ok
                    &&& uniform_items(final(self).pending@) == without_member(
                        uniform_items(old(self).pending@),
                        member@,
                    ).push((member@, member_value_floats(float_bits@, int_value), int_value))
                    &&& final(self).staging@ == old(self).staging@
                    &&& final(self).dirty == old(self).dirty
                },
                Some(l) => {
                    let (b, res) = member_write(
                        l,
                        old(self).staging@,
                        0,
                        member@,
                        float_bits@,
                        int_value,
                    );
                    &&& final(self).staging@ == b
                    &&& text_result(r) == res
                    &&& final(self).pending@ == old(self).pending@
                    &&& final(self).dirty == (old(self).dirty || res is Ok)
                },
            },
    {
        match &self.layout {
            None => {
                let ghost items = uniform_items(self.pending@);
                let mut kept: Vec<(String, PendingValue)> = Vec::new();
                let mut i: usize = 0;
                while i < self.pending.len()
                    invariant
                        i <= self.pending@.len(),
                        items == uniform_items(self.pending@),
                        uniform_items(kept@) == without_member(items.take(i as int), member@),
                    decreases self.pending@.len() - i,
                {
                    let it = &self.pending[i];
                    assert(items.take(i + 1).drop_last() =~= items.take(i as int));
                    if !crate::text::same_text(it.0.as_str(), member) {
                        kept.push((it.0.clone(), copy_pending(&it.1)));
                        assert(uniform_items(kept@) =~= without_member(items.take(i + 1), member@));
                    }
                    i += 1;
                }
                assert(items.take(self.pending@.len() as int) =~= items);
                kept.push((String::from_str(member), PendingValue::new(float_bits, int_value)));
                self.pending = kept;
                assert(uniform_items(self.pending@) =~= without_member(items, member@).push(
                    (member@, member_value_floats(float_bits@, int_value), int_value),
                ));
                Ok(())
            },
            Some(layout) => {
                match write_member(layout, &mut self.staging, 0, member, float_bits, int_value) {
                    Ok(()) => {},
                    Err(e) => return Err(e),
                }
                self.dirty = true;
                Ok(())
            },
        }
    }
}

impl UniformState {
    /// Applies the values set before the first bind, in order, now that the layout is known.
    /// The queue is emptied even when one of them fails; the staging bytes keep the writes
    /// made before the failure.
    pub fn apply_pending(&mut self) -> (r: Result<(), String>)
        requires
            old(self).staging_fits(),
            old(self).pending@.len() > 0 ==> old(self).layout is Some,
        ensures
            final(self).well_formed(),
            final(self).layout == old(self).layout,
            final(self).slot_size == old(self).slot_size,
            final(self).slot == old(self).slot,
            final(self).next_slot == old(self).next_slot,
            old(self).pending@.len() == 0 ==> {
                &&& r is Ok
                &&& final(self).staging@ == old(self).staging@
                &&& final(self).pending@ == old(self).pending@
                &&& final(self).dirty == old(self).dirty
            },
            old(self).pending@.len() > 0 ==> {
                let (b, res) = apply_uniform_items(
                    old(self).layout->0,
                    old(self).staging@,
                    uniform_items(old(self).pending@),
                );
                &&& final(self).staging@ == b
                &&& text_result(r) == res
                &&& final(self).pending@.len() == 0
                &&& final(self).dirty == (old(self).dirty || res is Ok)
            },
    {
        if self.pending.len() == 0 {
            return Ok(());
        }
        let mut items: Vec<(String, PendingValue)> = Vec::new();
        std::mem::swap(&mut items, &mut self.pending);
        let ghost all = uniform_items(items@);
        let layout = match &self.layout {
            Some(l) => l,
            None => return Ok(()),
        };
        let ghost start = self.staging@;
        let ghost before = *self;
        let mut i: usize = 0;
        while i < items.len()
            invariant
                i <= items@.len(),
                all == uniform_items(items@),
                self.layout == before.layout,
                before.layout == old(self).layout,
                before.slot_size == old(self).slot_size,
                before.slot == old(self).slot,
                before.next_slot == old(self).next_slot,
                before.dirty == old(self).dirty,
                start == old(self).staging@,
                all == uniform_items(old(self).pending@),
                self.layout == Some(*layout),
                self.slot_size == before.slot_size,
                self.slot == before.slot,
                self.next_slot == before.next_slot,
                self.dirty == before.dirty,
                self.pending@.len() == 0,
                layout_fits(*layout),
                layout.size <= self.staging@.len(),
                apply_uniform_items(*layout, start, all.take(i as int)) == (
                    self.staging@,
                    Ok::<(), Seq<char>>(()),
                ),
            decreases items@.len() - i,
        {
            let (floats, int_value) = items[i].1.parts();
            assert(all.take(i + 1).drop_last() =~= all.take(i as int));
            match write_member(layout, &mut self.staging, 0, items[i].0.as_str(), floats, int_value) {
                Ok(()) => {},
                Err(e) => {
                    let mut m = String::from_str("bind 前に set() されていたメンバの適用に失敗: ");
                    m.append(e.as_str());
                    proof {
                        lemma_apply_uniform_stops(*layout, start, all, i as int);
                    }
                    return Err(m);
                },
            }
            i += 1;
        }
        assert(all.take(items@.len() as int) =~= all);
        self.dirty = true;
        Ok(())
    }

    /// The layout mismatch message for a uniform already bound with another layout.
    pub open spec fn rebind_error(size: u32) -> Seq<char> {
        "この GpuUniform は別のレイアウト（size="@ + decimal(size as nat) + "）で既に使われています"@
    }

    /// First bind: the layout becomes known, the staging bytes are zeroed to its size, the
    /// ring slot size is the size (at least 4) rounded up to the dynamic-offset alignment,
    /// and queued values are applied. A later bind only checks that the layout agrees in
    /// size and member count (then applies anything queued, which is nothing).
    pub fn bind_layout(&mut self, layout: StructLayout) -> (r: Result<(), String>)
        requires
            old(self).well_formed(),
            old(self).layout is None ==> {
                &&& layout_fits(layout)
                &&& aligned_up(if layout.size < 4 { 4 } else { layout.size as int }, UNIFORM_ALIGN as int)
                    <= u32::MAX
            },
        ensures
            final(self).well_formed(),
            final(self).slot == old(self).slot,
            final(self).next_slot == old(self).next_slot,
            match old(self).layout {
                Some(e) => if e.size != layout.size || e.members@.len() != layout.members@.len() {
                    &&& text_result(r) == Err::<(), Seq<char>>(UniformState::rebind_error(e.size))
                    &&& *final(self) == *old(self)
                } else {
                    &&& r is Ok
                    &&& *final(self) == *old(self)
                },
                None => {
                    let zeros = Seq::new(layout.size as nat, |k: int| 0u8);
                    &&& final(self).layout == Some(layout)
                    &&& final(self).slot_size == aligned_up(
                        if layout.size < 4 { 4 } else { layout.size as int },
                        UNIFORM_ALIGN as int,
                    )
                    &&& old(self).pending@.len() == 0 ==> {
                        &&& r is Ok
                        &&& final(self).staging@ == zeros
                        &&& final(self).dirty == old(self).dirty
                    }
                    &&& old(self).pending@.len() > 0 ==> {
                        let (b, res) = apply_uniform_items(
                            layout,
                            zeros,
                            uniform_items(old(self).pending@),
                        );
                        &&& final(self).staging@ == b
                        &&& text_result(r) == res
                        &&& final(self).pending@.len() == 0
                        &&& final(self).dirty == (old(self).dirty || res is Ok)
                    }
                },
            },
    {
        match &self.layout {
            Some(existing) => {
                if existing.size != layout.size || existing.members.len() != layout.members.len() {
                    let mut m = String::from_str("この GpuUniform は別のレイアウト（size=");
                    push_decimal(&mut m, existing.size as u64);
                    m.append("）で既に使われています");
                    return Err(m);
                }
                // a bound uniform has nothing queued (see `well_formed`)
                return Ok(());
            },
            None => {},
        }
        let size = layout.size;
        let slot_size = align_up(if size < 4 { 4 } else { size }, UNIFORM_ALIGN);
        self.staging = vec![0u8; size as usize];
        assert(self.staging@ =~= Seq::new(layout.size as nat, |k: int| 0u8));
        self.slot_size = slot_size;
        self.layout = Some(layout);
        self.apply_pending()
    }

    /// Before a dispatch or draw: a dirty uniform takes the next ring slot, and the caller
    /// uploads the staging bytes at the returned byte offset. A clean one keeps its slot.
    pub fn take_slot(&mut self) -> (r: Result<Option<u64>, String>)
        ensures
            final(self).layout == old(self).layout,
            final(self).staging == old(self).staging,
            final(self).slot_size == old(self).slot_size,
            final(self).pending == old(self).pending,
            !old(self).dirty ==> r == Ok::<Option<u64>, String>(None) && *final(self) == *old(self),
            old(self).dirty && old(self).next_slot >= UNIFORM_SLOTS ==> {
                &&& r is Err
                &&& r->Err_0@ == "1 フレーム内の uniform 更新が上限（"@ + decimal(UNIFORM_SLOTS as nat)
                    + " 回）を超えました。submit() を挟んでください"@
                &&& *final(self) == *old(self)
            },
            old(self).dirty && old(self).next_slot < UNIFORM_SLOTS ==> {
                &&& r == Ok::<Option<u64>, String>(
                    Some((old(self).next_slot as u64 * old(self).slot_size as u64) as u64),
                )
                &&& final(self).slot == old(self).next_slot
                &&& final(self).next_slot == old(self).next_slot + 1
                &&& !final(self).dirty
            },
    {
        if !self.dirty {
            return Ok(None);
        }
        if self.next_slot >= UNIFORM_SLOTS {
            let mut m = String::from_str("1 フレーム内の uniform 更新が上限（");
            push_decimal(&mut m, UNIFORM_SLOTS as u64);
            m.append(" 回）を超えました。submit() を挟んでください");
            return Err(m);
        }
        self.slot = self.next_slot;
        self.next_slot = self.next_slot + 1;
        self.dirty = false;
        let slot = self.slot as u64;
        let size = self.slot_size as u64;
        assert(slot * size <= 1024 * 4294967295) by (nonlinear_arith)
            requires
                slot < 1024,
                size <= 4294967295,
        ;
        Ok(Some(slot * size))
    }

    /// The dynamic offset of the current slot.
    pub fn dynamic_offset(&self) -> (o: u32)
        requires
            self.slot * self.slot_size <= u32::MAX,
        ensures
            o == self.slot * self.slot_size,
    {
        self.slot * self.slot_size
    }

    /// End of frame: the ring starts over, and the staging bytes are uploaded again on the
    /// next use.
    pub fn rewind(&mut self)
        ensures
            final(self).next_slot == 0,
            final(self).dirty,
            final(self).layout == old(self).layout,
            final(self).staging == old(self).staging,
            final(self).slot_size == old(self).slot_size,
            final(self).slot == old(self).slot,
            final(self).pending == old(self).pending,
    {
        self.next_slot = 0;
        self.dirty = true;
    }
}

proof fn lemma_apply_uniform_stops(layout: StructLayout, start: Seq<u8>, all: Seq<PendingView>, i: int)
    requires
        0 <= i < all.len(),
        apply_uniform_items(layout, start, all.take(i)).1 is Ok,
        member_write(
            layout,
            apply_uniform_items(layout, start, all.take(i)).0,
            0,
            all[i].0,
            all[i].1,
            all[i].2,
        ).1 is Err,
    ensures
        apply_uniform_items(layout, start, all) == (
            apply_uniform_items(layout, start, all.take(i)).0,
            Err::<(), Seq<char>>(
                uniform_pending_error(
                    member_write(
                        layout,
                        apply_uniform_items(layout, start, all.take(i)).0,
                        0,
                        all[i].0,
                        all[i].1,
                        all[i].2,
                    ).1->Err_0,
                ),
            ),
        ),
{
    assert(all.take(i + 1).drop_last() =~= all.take(i));
    assert(all.take(i + 1).last() == all[i]);
    lemma_apply_error_sticks(layout, start, all, i + 1);
}

/// Once a queued value fails, the later ones change nothing.
proof fn lemma_apply_error_sticks(layout: StructLayout, start: Seq<u8>, all: Seq<PendingView>, n: int)
    requires
        0 <= n <= all.len(),
        apply_uniform_items(layout, start, all.take(n)).1 is Err,
    ensures
        apply_uniform_items(layout, start, all) == apply_uniform_items(layout, start, all.take(n)),
    decreases all.len() - n,
{
    if n < all.len() {
        assert(all.take(n + 1).drop_last() =~= all.take(n));
        lemma_apply_error_sticks(layout, start, all, n + 1);
    } else {
        assert(all.take(n) =~= all);
    }
}

/// The floats kept for a queued value: none for an int.
pub open spec fn member_value_floats(float_bits: Seq<u32>, int_value: Option<i32>) -> Seq<u32> {
    match int_value {
        Some(_) => Seq::empty(),
        None => float_bits,
    }
}

} // verus!
