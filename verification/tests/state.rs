use ep_main::buffer::{check_byte_offset, BufferState};
use ep_main::engine::align_up;
use ep_main::reflect::{MemberInfo, MemberKind, StructLayout};
use ep_main::staging::{check_layout_fits, write_member, UniformState, UNIFORM_SLOTS};

fn boid_layout() -> StructLayout {
    StructLayout {
        size: 16,
        members: vec![
            MemberInfo { name: "pos".to_string(), offset: 0, kind: MemberKind::VecF(2) },
            MemberInfo { name: "vel".to_string(), offset: 8, kind: MemberKind::VecF(2) },
        ],
    }
}

fn bits(v: &[f32]) -> Vec<u32> {
    v.iter().map(|x| x.to_bits()).collect()
}

#[test]
fn member_write_reads_back() {
    let layout = boid_layout();
    let mut bytes = vec![0u8; 32];
    write_member(&layout, &mut bytes, 16, "vel", &bits(&[5.0, 6.0]), None).unwrap();
    assert_eq!(f32::from_le_bytes(bytes[24..28].try_into().unwrap()), 5.0);
    assert_eq!(f32::from_le_bytes(bytes[28..32].try_into().unwrap()), 6.0);
    assert!(bytes[..24].iter().all(|b| *b == 0));
    assert!(write_member(&layout, &mut bytes, 0, "vel", &bits(&[5.0]), None).is_err());
}

#[test]
fn layouts_that_fit() {
    assert!(check_layout_fits(&boid_layout()));
    let bad = StructLayout {
        size: 8,
        members: vec![MemberInfo { name: "m".to_string(), offset: 0, kind: MemberKind::Mat4 }],
    };
    assert!(!check_layout_fits(&bad));
}

#[test]
fn alignment_rounds_up() {
    assert_eq!(align_up(24, 256), 256);
    assert_eq!(align_up(256, 256), 256);
    assert_eq!(align_up(257, 256), 512);
    assert_eq!(align_up(0, 256), 0);
}

#[test]
fn uniform_ring_slots_per_frame() {
    let mut u = UniformState::new();
    u.bind_layout(boid_layout()).unwrap();
    assert_eq!(u.slot_size, 256);
    assert_eq!(u.staging.len(), 16);
    assert_eq!(u.take_slot().unwrap(), Some(0));
    assert_eq!(u.take_slot().unwrap(), None);
    u.set_member("pos", &bits(&[1.0, 2.0]), None).unwrap();
    assert_eq!(u.take_slot().unwrap(), Some(256));
    assert_eq!(u.dynamic_offset(), 256);
    u.rewind();
    assert_eq!(u.take_slot().unwrap(), Some(0));
    u.next_slot = UNIFORM_SLOTS;
    u.dirty = true;
    assert_eq!(
        u.take_slot().unwrap_err(),
        "1 フレーム内の uniform 更新が上限（1024 回）を超えました。submit() を挟んでください"
    );
}

#[test]
fn uniform_rebind_with_other_layout_is_refused() {
    let mut u = UniformState::new();
    u.bind_layout(boid_layout()).unwrap();
    let other = StructLayout { size: 32, members: vec![] };
    assert_eq!(
        u.bind_layout(other).unwrap_err(),
        "この GpuUniform は別のレイアウト（size=16）で既に使われています"
    );
    assert!(u.bind_layout(boid_layout()).is_ok());
}

#[test]
fn buffer_queue_then_bind() {
    let mut b = BufferState::new(4);
    b.set_member(1, "pos", &bits(&[3.0, 4.0]), None).unwrap();
    b.set_member(1, "pos", &bits(&[7.0, 8.0]), None).unwrap();
    assert_eq!(b.pending.len(), 1);
    assert_eq!(
        b.set_member(4, "pos", &bits(&[1.0, 1.0]), None).unwrap_err(),
        "要素番号が範囲外です: 4（要素数 4）"
    );
    b.bind_layout(16, Some(boid_layout())).unwrap();
    assert_eq!(f32::from_le_bytes(b.mirror[16..20].try_into().unwrap()), 7.0);
    assert_eq!(b.size(), Some(64));
    assert_eq!(b.take_dirty_ranges(), vec![(16, 16)]);
    assert!(b.dirty.is_empty());
    assert_eq!(
        b.bind_layout(32, Some(boid_layout())).unwrap_err(),
        "この GpuBuffer は別のストライド（16 バイト）で既に使われています（今回: 32）"
    );
}

#[test]
fn buffer_raw_and_member_writes_mix_in_call_order() {
    let mut b = BufferState::new_strided(2, 16).unwrap();
    b.write_bytes(16, &[1, 2, 3, 4]).unwrap();
    b.bind_layout(16, Some(boid_layout())).unwrap();
    b.set_member(1, "vel", &bits(&[2.0, 0.5]), None).unwrap();
    assert_eq!(&b.mirror[16..20], &[1, 2, 3, 4]);
    assert_eq!(f32::from_le_bytes(b.mirror[24..28].try_into().unwrap()), 2.0);
    assert_eq!(
        b.write_bytes(28, &[0; 8]).unwrap_err(),
        "書き込み範囲がバッファを超えています: オフセット 28 + 8 バイト（バッファは 32 バイト）"
    );
    assert_eq!(b.element_byte_offset(1).unwrap(), 16);
    assert_eq!(check_byte_offset(6).unwrap_err(), "バイトオフセットは 4 の倍数が必要です: 6");
    assert!(check_byte_offset(8).is_ok());
}

#[test]
fn buffer_without_stride() {
    let mut b = BufferState::new(3);
    assert_eq!(b.size(), None);
    assert!(b.write_bytes(0, &[0; 4]).unwrap_err().starts_with("ストライド未確定です"));
    assert!(b.element_byte_offset(1).is_err());
    assert_eq!(
        BufferState::new_strided(3, 6).err().unwrap(),
        "ストライドは 4 の倍数（1 以上）である必要があります: 6"
    );
    assert!(b.take_dirty_ranges().is_empty());
}

#[test]
fn queued_element_values_fail_on_bind_with_their_element() {
    let mut b = BufferState::new(4);
    b.set_member(2, "spin", &bits(&[1.0]), None).unwrap();
    let err = b.bind_layout(16, Some(boid_layout())).unwrap_err();
    assert!(err.starts_with("bind 前に at(2).set() されていたメンバの適用に失敗: "), "{err}");
    assert!(b.pending.is_empty());
}

#[test]
fn member_writes_need_a_struct_element() {
    let mut b = BufferState::new(4);
    b.set_member(0, "x", &bits(&[1.0]), None).unwrap();
    let err = b.bind_layout(4, None).unwrap_err();
    assert_eq!(
        err,
        "この GpuBuffer の要素は struct ではないか、メンバ名で指定できない型を含んでいます。write(float[]) を使ってください"
    );
    assert_eq!(b.pending.len(), 1);
    assert_eq!(b.set_member(0, "x", &bits(&[1.0]), None).unwrap_err(), err);
}
