//! The CPU side of a storage buffer: its element count, its stride and element layout once
//! known, the mirror that `at(i).set(member, ...)` writes into, the elements not yet
//! uploaded, and the values set before the first bind.
use crate::engine::text_result;
use crate::reflect::StructLayout;
use crate::runs::{dirty_runs, run_covers, runs_cover, runs_well_formed};
use crate::staging::{
    layout_fits, member_value_floats, member_write, pending_parts, write_member, PendingValue,
};
use crate::text::{decimal, push_decimal};
use std::collections::BTreeSet;
use vstd::prelude::*;

verus! {

/// A queued element value as plain data: element number, member name, float bit patterns, int.
pub type ElementPendingView = (u32, Seq<char>, Seq<u32>, Option<i32>);

/// The plain view of queued element values.
pub open spec fn element_items(items: Seq<(u32, String, PendingValue)>) -> Seq<ElementPendingView> {
    items.map_values(
        |it: (u32, String, PendingValue)|
            (it.0, it.1@, pending_parts(it.2).0, pending_parts(it.2).1),
    )
}

/// `items` without those for element `index` and member `member`.
pub open spec fn without_element_member(items: Seq<ElementPendingView>, index: u32, member: Seq<char>) -> Seq<
    ElementPendingView,
>
    decreases items.len(),
{
    if items.len() == 0 {
        Seq::empty()
    } else {
        let rest = without_element_member(items.drop_last(), index, member);
        if items.last().0 == index && items.last().1 == member {
            rest
        } else {
            rest.push(items.last())
        }
    }
}

/// Dropping an element member's queued values twice drops nothing more.
proof fn lemma_without_element_member_twice(items: Seq<ElementPendingView>, index: u32, member: Seq<char>)
    ensures
        without_element_member(without_element_member(items, index, member), index, member)
            == without_element_member(items, index, member),
    decreases items.len(),
{
    if items.len() > 0 {
        lemma_without_element_member_twice(items.drop_last(), index, member);
        let rest = without_element_member(items.drop_last(), index, member);
        if !(items.last().0 == index && items.last().1 == member) {
            assert(rest.push(items.last()).drop_last() == rest);
        }
    }
}

/// Before the stride is known, a second `at(i).set` of the same member replaces the first:
/// the queue after both equals the queue after the second alone.
pub proof fn lemma_later_element_set_replaces(
    items: Seq<ElementPendingView>,
    index: u32,
    member: Seq<char>,
    first: (Seq<u32>, Option<i32>),
    second: (Seq<u32>, Option<i32>),
)
    ensures
        without_element_member(
            without_element_member(items, index, member).push((index, member, first.0, first.1)),
            index,
            member,
        ).push((index, member, second.0, second.1)) == without_element_member(items, index, member).push(
            (index, member, second.0, second.1),
        ),
{
    let once = without_element_member(items, index, member).push((index, member, first.0, first.1));
    assert(once.drop_last() == without_element_member(items, index, member));
    lemma_without_element_member_twice(items, index, member);
}

/// The error for an element value that fails when the layout becomes known.
pub open spec fn element_pending_error(index: u32, e: Seq<char>) -> Seq<char> {
    "bind 前に at("@ + decimal(index as nat) + ").set() されていたメンバの適用に失敗: "@ + e
}

/// The error for member access on a buffer whose element has no member layout.
pub open spec fn no_layout_message() -> Seq<char> {
    "この GpuBuffer の要素は struct ではないか、メンバ名で指定できない型を含んでいます。write(float[]) を使ってください"@
}

/// Applies queued element values in order: each is written at its element's start in
/// `bytes` and marks the element dirty; the first failure stops.
pub open spec fn apply_element_items(
    layout: StructLayout,
    stride: u32,
    bytes: Seq<u8>,
    dirty: Set<u32>,
    items: Seq<ElementPendingView>,
) -> (Seq<u8>, Set<u32>, Result<(), Seq<char>>)
    decreases items.len(),
{
    if items.len() == 0 {
        (bytes, dirty, Ok(()))
    } else {
        let (b, d, r) = apply_element_items(layout, stride, bytes, dirty, items.drop_last());
        match r {
            Err(e) => (b, d, Err(e)),
            Ok(()) => {
                let it = items.last();
                let (b2, r2) = member_write(layout, b, it.0 * stride, it.1, it.2, it.3);
                match r2 {
                    Ok(()) => (b2, d.insert(it.0), Ok(())),
                    Err(e) => (b2, d, Err(element_pending_error(it.0, e))),
                }
            },
        }
    }
}

/// `n` zero bytes.
pub open spec fn zeros(n: nat) -> Seq<u8> {
    Seq::new(n, |k: int| 0u8)
}

/// Applying queued values only marks the queued elements dirty.
proof fn lemma_apply_dirty_bound(
    layout: StructLayout,
    stride: u32,
    bytes: Seq<u8>,
    dirty: Set<u32>,
    items: Seq<ElementPendingView>,
    count: u32,
)
    requires
        forall|x: u32| #[trigger] dirty.contains(x) ==> x < count,
        forall|k: int| 0 <= k < items.len() ==> (#[trigger] items[k]).0 < count,
    ensures
        forall|x: u32|
            #[trigger] apply_element_items(layout, stride, bytes, dirty, items).1.contains(x) ==> x
                < count,
    decreases items.len(),
{
    if items.len() > 0 {
        lemma_apply_dirty_bound(layout, stride, bytes, dirty, items.drop_last(), count);
        assert(items.last().0 < count);
        let prev = apply_element_items(layout, stride, bytes, dirty, items.drop_last());
        assert forall|x: u32|
            #[trigger] apply_element_items(layout, stride, bytes, dirty, items).1.contains(
                x,
            ) implies x < count by {
            assert(prev.1.contains(x) ==> x < count);
        }
    }
}

/// Marks element `index` dirty.
fn mark_dirty(dirty: &mut BTreeSet<u32>, index: u32)
    ensures
        final(dirty)@ == old(dirty)@.insert(index),
{
    broadcast use vstd::std_specs::btree::group_btree_axioms;
    broadcast use vstd::laws_cmp::group_laws_cmp;

    dirty.insert(index);
}

proof fn lemma_apply_element_error_sticks(
    layout: StructLayout,
    stride: u32,
    bytes: Seq<u8>,
    dirty: Set<u32>,
    all: Seq<ElementPendingView>,
    n: int,
)
    requires
        0 <= n <= all.len(),
        apply_element_items(layout, stride, bytes, dirty, all.take(n)).2 is Err,
    ensures
        apply_element_items(layout, stride, bytes, dirty, all) == apply_element_items(
            layout,
            stride,
            bytes,
            dirty,
            all.take(n),
        ),
    decreases all.len() - n,
{
    if n < all.len() {
        assert(all.take(n + 1).drop_last() =~= all.take(n));
        lemma_apply_element_error_sticks(layout, stride, bytes, dirty, all, n + 1);
    } else {
        assert(all.take(n) =~= all);
    }
}

/// Applies values set with `at(i).set(...)` before the first bind, now that the stride and
/// element layout are known: each is checked and written into the mirror (created zeroed on
/// first use) and its element marked dirty. Without a member layout this is an error and
/// the queue is kept; otherwise the queue is emptied, even when one value fails.
pub fn apply_pending_buffer(
    layout: Option<&StructLayout>,
    stride: u32,
    element_count: u32,
    mirror: &mut Vec<u8>,
    dirty: &mut BTreeSet<u32>,
    pending: &mut Vec<(u32, String, PendingValue)>,
) -> (r: Result<(), String>)
    requires
        layout matches Some(l) ==> layout_fits(*l) && l.size <= stride,
        forall|k: int| 0 <= k < old(pending)@.len() ==> (#[trigger] old(pending)@[k]).0 < element_count,
        element_count * stride <= usize::MAX,
        old(mirror)@.len() != 0 ==> old(mirror)@.len() == element_count * stride,
    ensures
        final(mirror)@.len() != 0 ==> final(mirror)@.len() == element_count * stride,
        old(pending)@.len() == 0 ==> {
            &&& r is Ok
            &&& final(mirror)@ == old(mirror)@
            &&& final(dirty)@ == old(dirty)@
            &&& final(pending)@ == old(pending)@
        },
        old(pending)@.len() > 0 && layout is None ==> {
            &&& text_result(r) == Err::<(), Seq<char>>(no_layout_message())
            &&& final(mirror)@ == old(mirror)@
            &&& final(dirty)@ == old(dirty)@
            &&& final(pending)@ == old(pending)@
        },
        old(pending)@.len() > 0 && layout is Some ==> {
            let start = if old(mirror)@.len() == 0 {
                zeros((element_count * stride) as nat)
            } else {
                old(mirror)@
            };
            let (b, d, res) = apply_element_items(
                *layout->0,
                stride,
                start,
                old(dirty)@,
                element_items(old(pending)@),
            );
            &&& final(mirror)@ == b
            &&& final(dirty)@ == d
            &&& text_result(r) == res
            &&& final(pending)@.len() == 0
            &&& final(mirror)@.len() == element_count * stride
        },
{
    if pending.len() == 0 {
        return Ok(());
    }
    let l = match layout {
        Some(l) => l,
        None => {
            return Err(
                String::from_str(
                    "この GpuBuffer の要素は struct ではないか、メンバ名で指定できない型を含んでいます。write(float[]) を使ってください",
                ),
            );
        },
    };
    if mirror.len() == 0 {
        *mirror = vec![0u8; element_count as usize * stride as usize];
        assert(mirror@ =~= zeros((element_count * stride) as nat));
    }
    let mut items: Vec<(u32, String, PendingValue)> = Vec::new();
    std::mem::swap(&mut items, pending);
    let ghost all = element_items(items@);
    let ghost start = mirror@;
    let ghost dirty0 = dirty@;
    let mut i: usize = 0;
    while i < items.len()
        invariant
            i <= items@.len(),
            all == element_items(items@),
            layout_fits(*l),
            l.size <= stride,
            element_count * stride <= usize::MAX,
            mirror@.len() == element_count * stride,
            forall|k: int| 0 <= k < items@.len() ==> (#[trigger] items@[k]).0 < element_count,
            apply_element_items(*l, stride, start, dirty0, all.take(i as int)) == (
                mirror@,
                dirty@,
                Ok::<(), Seq<char>>(()),
            ),
            pending@.len() == 0,
            old(pending)@.len() > 0,
            layout == Some(l),
            all == element_items(old(pending)@),
            dirty0 == old(dirty)@,
            start == if old(mirror)@.len() == 0 {
                zeros((element_count * stride) as nat)
            } else {
                old(mirror)@
            },
        decreases items@.len() - i,
    {
        let index = items[i].0;
        let (floats, int_value) = items[i].2.parts();
        assert(all.take(i + 1).drop_last() =~= all.take(i as int));
        assert(all.take(i + 1).last() == all[i as int]);
        assert(index * stride + stride <= element_count * stride) by (nonlinear_arith)
            requires
                index < element_count,
        ;
        let base = index as usize * stride as usize;
        match write_member(l, mirror, base, items[i].1.as_str(), floats, int_value) {
            Ok(()) => {},
            Err(e) => {
                let mut m = String::from_str("bind 前に at(");
                push_decimal(&mut m, index as u64);
                m.append(").set() されていたメンバの適用に失敗: ");
                m.append(e.as_str());
                proof {
                    lemma_apply_element_error_sticks(*l, stride, start, dirty0, all, i + 1);
                }
                return Err(m);
            },
        }
        mark_dirty(dirty, index);
        i += 1;
    }
    assert(all.take(items@.len() as int) =~= all);
    Ok(())
}

/// The CPU side of a storage buffer. The GPU buffer itself (created once the stride is
/// known, `element_count * stride` bytes) is held beside it.
#[derive(Debug)]
pub struct BufferState {
    pub element_count: u32,
    /// Known once declared (`gpu.buffer(n, stride)`) or first bound.
    pub stride: Option<u32>,
    /// The element struct's member layout, known from the first bind.
    pub layout: Option<StructLayout>,
    /// What `at(i).set(...)` writes into: the same contents as the GPU buffer, allocated on
    /// first use; empty when only raw writes are used.
    pub mirror: Vec<u8>,
    /// Elements changed in the mirror and not yet uploaded.
    pub dirty: BTreeSet<u32>,
    /// Values set before the stride was known, applied on the first bind.
    pub pending: Vec<(u32, String, PendingValue)>,
}

/// The error for writes before the stride is known.
pub open spec fn no_stride_message() -> Seq<char> {
    "ストライド未確定です（先にカーネルへ bind するか、gpu.buffer(n, stride) で作ってください）"@
}

impl BufferState {
    /// The stride, layout, mirror, dirty set and queue agree with each other.
    pub open spec fn well_formed(&self) -> bool {
        &&& forall|k: int|
            0 <= k < self.pending@.len() ==> (#[trigger] self.pending@[k]).0 < self.element_count
        &&& forall|x: u32| #[trigger] self.dirty@.contains(x) ==> x < self.element_count
        &&& match self.stride {
            None => {
                &&& self.mirror@.len() == 0
                &&& self.dirty@.is_empty()
                &&& self.layout is None
            },
            Some(s) => {
                &&& self.element_count * s <= usize::MAX
                &&& self.layout is Some ==> self.pending@.len() == 0
                &&& self.mirror@.len() != 0 ==> self.mirror@.len() == self.element_count * s
                &&& !self.dirty@.is_empty() ==> self.mirror@.len() == self.element_count * s
                &&& self.layout matches Some(l) ==> layout_fits(l) && l.size <= s
            },
        }
    }

    /// The byte size of the GPU buffer, once the stride is known.
    pub open spec fn byte_size(&self) -> int {
        match self.stride {
            Some(s) => self.element_count * s,
            None => 0,
        }
    }

    /// A buffer whose stride is learnt from its first bind.
    pub fn new(element_count: u32) -> (b: BufferState)
        ensures
            b.element_count == element_count,
            b.stride is None,
            b.layout is None,
            b.mirror@.len() == 0,
            b.dirty@.is_empty(),
            b.pending@.len() == 0,
            b.well_formed(),
    {
        BufferState {
            element_count,
            stride: None,
            layout: None,
            mirror: Vec::new(),
            dirty: BTreeSet::new(),
            pending: Vec::new(),
        }
    }

    /// The error for a declared stride that is not a positive multiple of 4.
    pub open spec fn bad_stride_message(stride: u32) -> Seq<char> {
        "ストライドは 4 の倍数（1 以上）である必要があります: "@ + decimal(stride as nat)
    }

    /// A buffer with a declared stride (`gpu.buffer(n, stride)`), writable before any bind.
    /// The stride must be a positive multiple of 4.
    pub fn new_strided(element_count: u32, stride: u32) -> (r: Result<BufferState, String>)
        requires
            element_count * stride <= usize::MAX,
        ensures
            stride == 0 || stride % 4 != 0 ==> r is Err && r->Err_0@
                == BufferState::bad_stride_message(stride),
            !(stride == 0 || stride % 4 != 0) ==> (r matches Ok(b) && {
                &&& b.element_count == element_count
                &&& b.stride == Some(stride)
                &&& b.layout is None
                &&& b.mirror@.len() == 0
                &&& b.dirty@.is_empty()
                &&& b.pending@.len() == 0
                &&& b.well_formed()
            }),
    {
        if stride == 0 || stride % 4 != 0 {
            let mut m = String::from_str("ストライドは 4 の倍数（1 以上）である必要があります: ");
            push_decimal(&mut m, stride as u64);
            return Err(m);
        }
        Ok(
            BufferState {
                element_count,
                stride: Some(stride),
                layout: None,
                mirror: Vec::new(),
                dirty: BTreeSet::new(),
                pending: Vec::new(),
            },
        )
    }
}

/// The error for an element number past the end.
pub open spec fn element_range_message(index: u32, count: u32) -> Seq<char> {
    "要素番号が範囲外です: "@ + decimal(index as nat) + "（要素数 "@ + decimal(count as nat) + "）"@
}

/// The error for a buffer bound again with another stride.
pub open spec fn restride_message(existing: u32, stride: u32) -> Seq<char> {
    "この GpuBuffer は別のストライド（"@ + decimal(existing as nat) + " バイト）で既に使われています（今回: "@
        + decimal(stride as nat) + "）"@
}

/// The error for a raw write past the end of the buffer.
pub open spec fn write_range_message(offset: u64, len: nat, size: int) -> Seq<char> {
    "書き込み範囲がバッファを超えています: オフセット "@ + decimal(offset as nat) + " + "@ + decimal(len)
        + " バイト（バッファは "@ + decimal(size as nat) + " バイト）"@
}

impl BufferState {
    /// `buffer.at(index).set(member, ...)`. Before the stride is known the value is queued
    /// (replacing a queued value of the same element and member); afterwards it is checked
    /// against the element layout and written into the mirror (allocated zeroed on first
    /// use), and the element is marked dirty. Uploading happens later, element runs at a time.
    pub fn set_member(
        &mut self,
        index: u32,
        member: &str,
        float_bits: &[u32],
        int_value: Option<i32>,
    ) -> (r: Result<(), String>)
        requires
            old(self).well_formed(),
        ensures
            final(self).well_formed(),
            final(self).element_count == old(self).element_count,
            final(self).stride == old(self).stride,
            final(self).layout == old(self).layout,
            index >= old(self).element_count ==> {
                &&& text_result(r) == Err::<(), Seq<char>>(
                    element_range_message(index, old(self).element_count),
                )
                &&& *final(self) == *old(self)
            },
            index < old(self).element_count && old(self).stride is None ==> {
                &&& r is Ok
                &&& element_items(final(self).pending@) == without_element_member(
                    element_items(old(self).pending@),
                    index,
                    member@,
                ).push((index, member@, member_value_floats(float_bits@, int_value), int_value))
                &&& final(self).mirror@ == old(self).mirror@
                &&& final(self).dirty@ == old(self).dirty@
            },
            index < old(self).element_count && old(self).stride is Some && old(self).layout is None
                ==> {
                &&& text_result(r) == Err::<(), Seq<char>>(no_layout_message())
                &&& *final(self) == *old(self)
            },
            index < old(self).element_count ==> match (old(self).stride, old(self).layout) {
                (Some(s), Some(l)) => {
                let start = if old(self).mirror@.len() == 0 {
                    zeros((old(self).element_count * s) as nat)
                } else {
                    old(self).mirror@
                };
                let (b, res) = member_write(l, start, index * s, member@, float_bits@, int_value);
                &&& final(self).mirror@ == b
                &&& text_result(r) == res
                &&& final(self).dirty@ == if res is Ok {
                    old(self).dirty@.insert(index)
                } else {
                    old(self).dirty@
                }
                &&& final(self).pending@ == old(self).pending@
                },
                _ => true,
            },
    {
        if index >= self.element_count {
            let mut m = String::from_str("要素番号が範囲外です: ");
            push_decimal(&mut m, index as u64);
            m.append("（要素数 ");
            push_decimal(&mut m, self.element_count as u64);
            m.append("）");
            return Err(m);
        }
        let stride = match self.stride {
            Some(s) => s,
            None => {
                self.queue(index, member, float_bits, int_value);
                return Ok(());
            },
        };
        let layout = match &self.layout {
            Some(l) => l,
            None => {
                return Err(
                    String::from_str(
                        "この GpuBuffer の要素は struct ではないか、メンバ名で指定できない型を含んでいます。write(float[]) を使ってください",
                    ),
                );
            },
        };
        if self.mirror.len() == 0 {
            self.mirror = vec![0u8; self.element_count as usize * stride as usize];
            assert(self.mirror@ =~= zeros((self.element_count * stride) as nat));
        }
        assert(index * stride + stride <= self.element_count * stride) by (nonlinear_arith)
            requires
                index < self.element_count,
        ;
        let base = index as usize * stride as usize;
        match write_member(layout, &mut self.mirror, base, member, float_bits, int_value) {
            Ok(()) => {},
            Err(e) => return Err(e),
        }
        mark_dirty(&mut self.dirty, index);
        Ok(())
    }

    fn queue(&mut self, index: u32, member: &str, float_bits: &[u32], int_value: Option<i32>)
        requires
            old(self).well_formed(),
            old(self).stride is None,
            index < old(self).element_count,
        ensures
            final(self).well_formed(),
            final(self).element_count == old(self).element_count,
            final(self).stride == old(self).stride,
            final(self).layout == old(self).layout,
            final(self).mirror@ == old(self).mirror@,
            final(self).dirty@ == old(self).dirty@,
            element_items(final(self).pending@) == without_element_member(
                element_items(old(self).pending@),
                index,
                member@,
            ).push((index, member@, member_value_floats(float_bits@, int_value), int_value)),
    {
        let ghost items = element_items(self.pending@);
        let mut kept: Vec<(u32, String, PendingValue)> = Vec::new();
        let mut i: usize = 0;
        while i < self.pending.len()
            invariant
                i <= self.pending@.len(),
                items == element_items(self.pending@),
                element_items(kept@) == without_element_member(items.take(i as int), index, member@),
                forall|k: int| 0 <= k < kept@.len() ==> (#[trigger] kept@[k]).0 < self.element_count,
                forall|k: int|
                    0 <= k < self.pending@.len() ==> (#[trigger] self.pending@[k]).0
                        < self.element_count,
            decreases self.pending@.len() - i,
        {
            let it = &self.pending[i];
            assert(items.take(i + 1).drop_last() =~= items.take(i as int));
            if !(it.0 == index && crate::text::same_text(it.1.as_str(), member)) {
                kept.push((it.0, it.1.clone(), crate::staging::copy_pending(&it.2)));
                assert(element_items(kept@) =~= without_element_member(
                    items.take(i + 1),
                    index,
                    member@,
                ));
            }
            i += 1;
        }
        assert(items.take(self.pending@.len() as int) =~= items);
        kept.push((index, String::from_str(member), PendingValue::new(float_bits, int_value)));
        self.pending = kept;
        assert(element_items(self.pending@) =~= without_element_member(items, index, member@).push(
            (index, member@, member_value_floats(float_bits@, int_value), int_value),
        ));
    }

    /// Binding the buffer to a kernel or renderer whose WGSL declares element stride
    /// `stride` and element layout `layout`. The first bind fixes the stride (the caller then
    /// creates the GPU buffer); a later bind with another stride is an error. The element
    /// layout is taken from the first bind that has one; then values queued before the
    /// first bind are applied.
    pub fn bind_layout(&mut self, stride: u32, layout: Option<StructLayout>) -> (r: Result<
        (),
        String,
    >)
        requires
            old(self).well_formed(),
            old(self).stride is None || old(self).stride == Some(stride) ==> {
                &&& old(self).element_count * stride <= usize::MAX
                &&& layout matches Some(l) ==> layout_fits(l) && l.size <= stride
            },
        ensures
            final(self).well_formed(),
            final(self).element_count == old(self).element_count,
            match old(self).stride {
                Some(e) => e != stride ==> {
                    &&& text_result(r) == Err::<(), Seq<char>>(restride_message(e, stride))
                    &&& *final(self) == *old(self)
                },
                None => true,
            },
            old(self).stride is None || old(self).stride == Some(stride) ==> {
                let lay = if old(self).layout is None {
                    layout
                } else {
                    old(self).layout
                };
                &&& final(self).stride == Some(stride)
                &&& final(self).layout == lay
                &&& old(self).pending@.len() == 0 ==> {
                    &&& r is Ok
                    &&& final(self).mirror@ == old(self).mirror@
                    &&& final(self).dirty@ == old(self).dirty@
                }
                &&& old(self).pending@.len() > 0 && lay is None ==> {
                    &&& text_result(r) == Err::<(), Seq<char>>(no_layout_message())
                    &&& final(self).mirror@ == old(self).mirror@
                    &&& final(self).dirty@ == old(self).dirty@
                    &&& final(self).pending@ == old(self).pending@
                }
                &&& old(self).pending@.len() > 0 && lay is Some ==> {
                    let (b, d, res) = apply_element_items(
                        lay->0,
                        stride,
                        if old(self).mirror@.len() == 0 {
                            zeros((old(self).element_count * stride) as nat)
                        } else {
                            old(self).mirror@
                        },
                        old(self).dirty@,
                        element_items(old(self).pending@),
                    );
                    &&& final(self).mirror@ == b
                    &&& final(self).dirty@ == d
                    &&& text_result(r) == res
                    &&& final(self).pending@.len() == 0
                }
            },
    {
        if let Some(existing) = self.stride {
            if existing != stride {
                let mut m = String::from_str("この GpuBuffer は別のストライド（");
                push_decimal(&mut m, existing as u64);
                m.append(" バイト）で既に使われています（今回: ");
                push_decimal(&mut m, stride as u64);
                m.append("）");
                return Err(m);
            }
        }
        self.stride = Some(stride);
        if self.layout.is_none() {
            self.layout = layout;
        }
        proof {
            lemma_apply_dirty_bound(
                self.layout->0,
                stride,
                if self.mirror@.len() == 0 {
                    zeros((self.element_count * stride) as nat)
                } else {
                    self.mirror@
                },
                self.dirty@,
                element_items(self.pending@),
                self.element_count,
            );
        }
        let r = apply_pending_buffer(
            self.layout.as_ref(),
            stride,
            self.element_count,
            &mut self.mirror,
            &mut self.dirty,
            &mut self.pending,
        );
        r
    }
}

/// The error for a byte offset that is not a multiple of 4.
pub open spec fn misaligned_offset_message(offset: u64) -> Seq<char> {
    "バイトオフセットは 4 の倍数が必要です: "@ + decimal(offset as nat)
}

/// Raw writes start at a multiple of 4 bytes.
pub fn check_byte_offset(byte_offset: u64) -> (r: Result<(), String>)
    ensures
        byte_offset % 4 == 0 <==> r is Ok,
        r matches Err(m) ==> m@ == misaligned_offset_message(byte_offset),
{
    if byte_offset % 4 != 0 {
        let mut m = String::from_str("バイトオフセットは 4 の倍数が必要です: ");
        push_decimal(&mut m, byte_offset);
        return Err(m);
    }
    Ok(())
}

/// The byte ranges `(offset, length)` of element runs, for elements of `stride` bytes.
pub open spec fn byte_ranges(runs: Seq<(u32, u32)>, stride: u32) -> Seq<(usize, usize)> {
    runs.map_values(|run: (u32, u32)| ((run.0 * stride) as usize, (run.1 * stride) as usize))
}

impl BufferState {
    /// The byte size of the GPU buffer, once the stride is known.
    pub fn size(&self) -> (r: Option<u64>)
        ensures
            r == match self.stride {
                Some(s) => Some((self.element_count * s) as u64),
                None => None::<u64>,
            },
    {
        match self.stride {
            Some(s) => {
                let n = self.element_count;
                assert(n * s <= u32::MAX * u32::MAX) by (nonlinear_arith)
                    requires
                        n <= u32::MAX,
                        s <= u32::MAX,
                ;
                Some(n as u64 * s as u64)
            },
            None => None,
        }
    }

    /// `write(elementOffset, data)`: the byte offset of element `element_offset`.
    pub fn element_byte_offset(&self, element_offset: u32) -> (r: Result<u64, String>)
        ensures
            match self.stride {
                Some(s) => r == Ok::<u64, String>((element_offset * s) as u64),
                None => r is Err && r->Err_0@ == no_stride_message(),
            },
    {
        match self.stride {
            Some(s) => {
                assert(element_offset * s <= u32::MAX * u32::MAX) by (nonlinear_arith)
                    requires
                        element_offset <= u32::MAX,
                        s <= u32::MAX,
                ;
                Ok(element_offset as u64 * s as u64)
            },
            None => Err(
                String::from_str(
                    "ストライド未確定です（先にカーネルへ bind するか、gpu.buffer(n, stride) で作ってください）",
                ),
            ),
        }
    }

    /// A raw write of `bytes` at `byte_offset` (already checked to be a multiple of 4): it
    /// must fit in the buffer; the mirror (allocated zeroed on first use) takes the bytes
    /// too, so that later member writes keep them. The caller uploads the same bytes.
    pub fn write_bytes(&mut self, byte_offset: u64, bytes: &[u8]) -> (r: Result<(), String>)
        requires
            old(self).well_formed(),
            byte_offset + bytes@.len() <= u64::MAX,
        ensures
            final(self).well_formed(),
            final(self).element_count == old(self).element_count,
            final(self).stride == old(self).stride,
            final(self).layout == old(self).layout,
            final(self).dirty@ == old(self).dirty@,
            final(self).pending@ == old(self).pending@,
            old(self).stride is None ==> {
                &&& text_result(r) == Err::<(), Seq<char>>(no_stride_message())
                &&& final(self).mirror@ == old(self).mirror@
            },
            old(self).stride is Some && byte_offset + bytes@.len() > old(self).byte_size() ==> {
                &&& text_result(r) == Err::<(), Seq<char>>(
                    write_range_message(byte_offset, bytes@.len(), old(self).byte_size()),
                )
                &&& final(self).mirror@ == old(self).mirror@
            },
            old(self).stride is Some && byte_offset + bytes@.len() <= old(self).byte_size() ==> {
                let start = if old(self).mirror@.len() == 0 {
                    zeros(old(self).byte_size() as nat)
                } else {
                    old(self).mirror@
                };
                &&& r is Ok
                &&& final(self).mirror@ == crate::staging::splice(start, byte_offset as int, bytes@)
            },
    {
        let stride = match self.stride {
            Some(s) => s,
            None => {
                return Err(
                    String::from_str(
                        "ストライド未確定です（先にカーネルへ bind するか、gpu.buffer(n, stride) で作ってください）",
                    ),
                );
            },
        };
        let n = self.element_count;
        assert(n * stride <= u32::MAX * u32::MAX) by (nonlinear_arith)
            requires
                n <= u32::MAX,
                stride <= u32::MAX,
        ;
        let size = n as u64 * stride as u64;
        if byte_offset + bytes.len() as u64 > size {
            let mut m = String::from_str("書き込み範囲がバッファを超えています: オフセット ");
            push_decimal(&mut m, byte_offset);
            m.append(" + ");
            push_decimal(&mut m, bytes.len() as u64);
            m.append(" バイト（バッファは ");
            push_decimal(&mut m, size);
            m.append(" バイト）");
            return Err(m);
        }
        if self.mirror.len() == 0 {
            self.mirror = vec![0u8; self.element_count as usize * stride as usize];
            assert(self.mirror@ =~= zeros(self.byte_size() as nat));
        }
        let ghost start = self.mirror@;
        let off = byte_offset as usize;
        let mut i: usize = 0;
        while i < bytes.len()
            invariant
                i <= bytes@.len(),
                off == byte_offset,
                off + bytes@.len() <= start.len(),
                start.len() <= usize::MAX,
                start.len() == old(self).byte_size(),
                self.mirror@.len() == start.len(),
                self.element_count == old(self).element_count,
                self.stride == old(self).stride,
                self.layout == old(self).layout,
                self.dirty@ == old(self).dirty@,
                self.pending@ == old(self).pending@,
                self.mirror@ =~= start.subrange(0, off as int) + bytes@.take(i as int) + start.subrange(
                    off + i,
                    start.len() as int,
                ),
            decreases bytes@.len() - i,
        {
            self.mirror.set(off + i, bytes[i]);
            i += 1;
        }
        assert(bytes@.take(bytes@.len() as int) =~= bytes@);
        Ok(())
    }

    /// Before an upload: the dirty elements as maximal runs, in bytes (`(offset, length)`
    /// within the mirror, one upload each); the dirty set is then empty. Nothing is dirty
    /// before the stride is known.
    pub fn take_dirty_ranges(&mut self) -> (ranges: Vec<(usize, usize)>)
        requires
            old(self).well_formed(),
        ensures
            final(self).well_formed(),
            final(self).dirty@.is_empty(),
            final(self).element_count == old(self).element_count,
            final(self).stride == old(self).stride,
            final(self).layout == old(self).layout,
            final(self).mirror@ == old(self).mirror@,
            final(self).pending@ == old(self).pending@,
            old(self).stride is None ==> ranges@.len() == 0,
            old(self).stride matches Some(s) ==> exists|runs: Seq<(u32, u32)>|
                {
                    &&& runs_well_formed(runs)
                    &&& forall|x: u32| old(self).dirty@.contains(x) <==> runs_cover(runs, x as int)
                    &&& ranges@ == byte_ranges(runs, s)
                },
            forall|k: int|
                0 <= k < ranges@.len() ==> (#[trigger] ranges@[k]).0 + ranges@[k].1
                    <= final(self).mirror@.len(),
    {
        let stride = match self.stride {
            Some(s) => s,
            None => {
                return Vec::new();
            },
        };
        assert(!self.dirty@.contains(u32::MAX));
        let runs = dirty_runs(&self.dirty);
        let mut ranges: Vec<(usize, usize)> = Vec::new();
        let mut k: usize = 0;
        while k < runs.len()
            invariant
                k <= runs@.len(),
                runs_well_formed(runs@),
                forall|x: u32| self.dirty@.contains(x) <==> runs_cover(runs@, x as int),
                forall|x: u32| #[trigger] self.dirty@.contains(x) ==> x < self.element_count,
                self.element_count * stride <= usize::MAX,
                self.stride == Some(stride),
                !self.dirty@.is_empty() ==> self.mirror@.len() == self.element_count * stride,
                ranges@ == byte_ranges(runs@.take(k as int), stride),
                forall|t: int|
                    0 <= t < ranges@.len() ==> (#[trigger] ranges@[t]).0 + ranges@[t].1
                        <= self.mirror@.len(),
            decreases runs@.len() - k,
        {
            let (start, count) = runs[k];
            proof {
                // the run's last element is dirty, so the run ends inside the buffer
                assert(runs@[k as int].1 >= 1);
                let last: int = if start + count - 1 <= u32::MAX {
                    start + count - 1
                } else {
                    u32::MAX as int
                };
                let x = last as u32;
                assert(run_covers(runs@[k as int], x as int));
                assert(runs_cover(runs@, x as int));
                assert(self.dirty@.contains(x));
                assert(start + count <= self.element_count);
                assert((start + count) * stride <= self.element_count * stride) by (nonlinear_arith)
                    requires
                        start + count <= self.element_count,
                ;
                assert(start * stride + count * stride == (start + count) * stride)
                    by (nonlinear_arith);
            }
            ranges.push((start as usize * stride as usize, count as usize * stride as usize));
            assert(byte_ranges(runs@.take(k + 1), stride) =~= byte_ranges(runs@.take(k as int), stride).push(
                ((start * stride) as usize, (count * stride) as usize),
            ));
            k += 1;
        }
        assert(runs@.take(runs@.len() as int) =~= runs@);
        self.dirty.clear();
        ranges
    }
}

} // verus!
