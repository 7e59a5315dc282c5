use checkbox_frontend::wire::{
    binary_message, decode_worker_binary, decompress_message, parse_frame, parse_snapshot,
    WorkerBinary,
};
use std::io::Write;

fn row(id: u64, data: &[u8]) -> Vec<u8> {
    let mut b = id.to_le_bytes().to_vec();
    b.extend_from_slice(&(data.len() as u32).to_le_bytes());
    b.extend_from_slice(data);
    b
}

#[test]
fn uncompressed_message_body() {
    assert_eq!(decompress_message(&[0, 7, 8, 9]), Some(vec![7, 8, 9]));
    assert_eq!(decompress_message(&[0]), Some(vec![]));
}

#[test]
fn empty_or_unknown_message() {
    assert_eq!(decompress_message(&[]), None);
    assert_eq!(decompress_message(&[3, 1, 2]), None);
}

#[test]
fn gzip_message_body() {
    let mut enc = flate2::write::GzEncoder::new(Vec::new(), flate2::Compression::default());
    enc.write_all(b"hello checkboxes").unwrap();
    let mut msg = vec![2u8];
    msg.extend(enc.finish().unwrap());
    assert_eq!(decompress_message(&msg), Some(b"hello checkboxes".to_vec()));
    assert_eq!(decompress_message(&[2, 1, 2, 3]), None);
}

#[test]
fn brotli_message_body() {
    let mut out = Vec::new();
    {
        let mut w = brotli::CompressorWriter::new(&mut out, 4096, 5, 22);
        w.write_all(b"doom frame bytes").unwrap();
    }
    let mut msg = vec![1u8];
    msg.extend(out);
    assert_eq!(decompress_message(&msg), Some(b"doom frame bytes".to_vec()));
}

#[test]
fn frame_and_snapshot_rows() {
    assert_eq!(parse_frame(&row(3, &[1, 2, 3])), Some(vec![1, 2, 3]));
    assert_eq!(parse_snapshot(&row(0, &[])), Some(vec![]));
    let r = row(3, &[1, 2, 3]);
    assert_eq!(parse_frame(&r[..r.len() - 1]), None);
    assert_eq!(parse_snapshot(&r[..11]), None);
}

#[test]
fn worker_binary_roundtrip() {
    let snap = binary_message(1, &[4, 5, 6]);
    assert_eq!(snap, vec![1, 4, 5, 6]);
    assert_eq!(decode_worker_binary(&snap), WorkerBinary::Snapshot(vec![4, 5, 6]));
    let delta = binary_message(2, &[7]);
    assert_eq!(decode_worker_binary(&delta), WorkerBinary::FrameDelta(vec![7]));
    assert_eq!(decode_worker_binary(&[9, 1]), WorkerBinary::Ignored);
    assert_eq!(decode_worker_binary(&[]), WorkerBinary::Ignored);
}
