use checkbox_frontend::frames::{
    apply_frame_delta, apply_snapshot, encode_send_frame_args, frame_ids_to_delete, send_frame,
    PixelUpdate, Snapshot, SNAPSHOT_BYTES,
};

fn px(offset: u32, r: u8, g: u8, b: u8, checked: bool) -> PixelUpdate {
    PixelUpdate { offset, r, g, b, checked }
}

#[test]
fn send_frame_without_snapshot_starts_blank() {
    let (snap, frame) = send_frame(None, &[px(1, 10, 20, 30, true), px(0x01_0203, 1, 2, 3, false)]);
    assert_eq!(snap.id, 0);
    assert_eq!(snap.state.len(), SNAPSHOT_BYTES);
    assert_eq!(&snap.state[4..8], &[10, 20, 30, 0xFF]);
    assert_eq!(&snap.state[0x01_0203 * 4..0x01_0203 * 4 + 4], &[1, 2, 3, 0]);
    let frame = frame.unwrap();
    assert_eq!(frame.id, 0);
    assert_eq!(frame.data, vec![0, 0, 1, 10, 20, 30, 1, 1, 2, 3, 1, 2, 3, 0]);
}

#[test]
fn send_frame_updates_existing_snapshot_and_drops_far_pixels() {
    let old = Snapshot { id: 0, state: vec![5u8; 8] };
    let (snap, frame) = send_frame(Some(old), &[px(1, 1, 1, 1, true), px(2, 9, 9, 9, true)]);
    assert_eq!(snap.state, vec![5, 5, 5, 5, 1, 1, 1, 0xFF]);
    assert_eq!(frame.unwrap().data.len(), 14);
}

#[test]
fn send_frame_with_no_updates_broadcasts_nothing() {
    let old = Snapshot { id: 0, state: vec![7u8; 4] };
    let (snap, frame) = send_frame(Some(old), &[]);
    assert_eq!(snap.state, vec![7u8; 4]);
    assert!(frame.is_none());
}

#[test]
fn delta_offset_keeps_low_24_bits() {
    let (_, frame) = send_frame(Some(Snapshot { id: 0, state: vec![] }), &[px(0x1234_5678, 0, 0, 0, false)]);
    assert_eq!(&frame.unwrap().data[0..3], &[0x34, 0x56, 0x78]);
}

#[test]
fn spectator_reproduces_snapshot() {
    let updates = [px(3, 1, 2, 3, true), px(0, 4, 5, 6, false), px(3, 7, 8, 9, false)];
    let start = vec![0xAAu8; 20];
    let (snap, frame) = send_frame(Some(Snapshot { id: 0, state: start.clone() }), &updates);
    let mut screen = start;
    apply_frame_delta(&mut screen, &frame.unwrap().data);
    assert_eq!(screen, snap.state);
}

#[test]
fn apply_frame_delta_ignores_partial_entry_and_out_of_range() {
    let mut buf = vec![0u8; 8];
    apply_frame_delta(&mut buf, &[0, 0, 1, 9, 8, 7, 5, 0, 0, 9, 1, 1, 1, 1, 0, 0]);
    assert_eq!(buf, vec![0, 0, 0, 0, 9, 8, 7, 0xFF]);
}

#[test]
fn apply_snapshot_copies_common_prefix() {
    let mut buf = vec![0u8; 4];
    apply_snapshot(&mut buf, &[1, 2]);
    assert_eq!(buf, vec![1, 2, 0, 0]);
    apply_snapshot(&mut buf, &[9, 9, 9, 9, 9, 9]);
    assert_eq!(buf, vec![9, 9, 9, 9]);
}

#[test]
fn send_frame_args_layout() {
    let args = encode_send_frame_args(&[(0x0102_0304, 5, 6, 7, true), (1, 0, 0, 0, false)]);
    assert_eq!(args, vec![2, 0, 0, 0, 4, 3, 2, 1, 5, 6, 7, 1, 1, 0, 0, 0, 0, 0, 0, 0]);
    assert_eq!(encode_send_frame_args(&[]), vec![0, 0, 0, 0]);
}

#[test]
fn cleanup_selects_old_frames() {
    assert_eq!(frame_ids_to_delete(&[1, 5, 3, 9, 4], 4), vec![1, 3, 4]);
    assert_eq!(frame_ids_to_delete(&[1, 2], u64::MAX), vec![1, 2]);
}
