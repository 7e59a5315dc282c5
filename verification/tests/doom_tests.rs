use checkbox_frontend::doom::{apply_doom_pixels, check_doom_frame, decode_doom_frame, encode_doom_frame};

fn worker_frame(width: u32, base_x: u32, base_y: u32, pixels: &[(u32, [u8; 4])]) -> Vec<u8> {
    let mut b = vec![4u8];
    b.extend_from_slice(&width.to_le_bytes());
    b.extend_from_slice(&base_x.to_le_bytes());
    b.extend_from_slice(&base_y.to_le_bytes());
    b.extend_from_slice(&0i64.to_le_bytes());
    for (idx, _) in pixels {
        b.extend_from_slice(&idx.to_le_bytes());
    }
    for (_, c) in pixels {
        b.extend_from_slice(c);
    }
    b
}

#[test]
fn doom_pixels_drawn_in_order() {
    let mut buf = vec![0u8; 12];
    apply_doom_pixels(&mut buf, &[2, 0, 2, 9], &[1, 1, 1, 1, 2, 2, 2, 0, 3, 3, 3, 5, 4, 4, 4, 4]);
    assert_eq!(buf, vec![2, 2, 2, 0, 0, 0, 0, 0, 3, 3, 3, 0xFF]);
}

#[test]
fn doom_pixels_stop_at_missing_colours() {
    let mut buf = vec![0u8; 8];
    apply_doom_pixels(&mut buf, &[0, 1], &[9, 9, 9, 9, 8]);
    assert_eq!(buf, vec![9, 9, 9, 0xFF, 0, 0, 0, 0]);
}

#[test]
fn doom_frame_message_layout() {
    let msg = encode_doom_frame(640, &[1, 0x0102_0304], &[9, 8, 7, 6]);
    assert_eq!(msg, vec![4, 0x80, 2, 0, 0, 1, 0, 0, 0, 4, 3, 2, 1, 9, 8, 7, 6]);
}

#[test]
fn worker_reads_doom_frame() {
    let b = worker_frame(640, 10, 20, &[(641, [1, 2, 3, 1]), (5, [4, 5, 6, 0])]);
    assert!(check_doom_frame(&b));
    let ups = decode_doom_frame(&b).unwrap();
    assert_eq!(ups, vec![(21 * 1000 + 11, 1, 2, 3, true), (20 * 1000 + 15, 4, 5, 6, false)]);
}

#[test]
fn worker_ignores_other_messages() {
    assert_eq!(decode_doom_frame(&[]), None);
    assert_eq!(decode_doom_frame(&[5; 30]), None);
    let mut short = worker_frame(1, 0, 0, &[]);
    short.pop();
    assert_eq!(decode_doom_frame(&short), None);
    assert_eq!(decode_doom_frame(&worker_frame(1, 0, 0, &[])), Some(vec![]));
}

#[test]
fn doom_frame_with_zero_width_does_not_fit() {
    assert!(!check_doom_frame(&worker_frame(0, 0, 0, &[(1, [0; 4])])));
    assert!(check_doom_frame(&worker_frame(0, 0, 0, &[])));
    assert!(!check_doom_frame(&worker_frame(1, 0, 5_000_000, &[(0, [0; 4])])));
}
