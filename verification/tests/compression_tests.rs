use checkbox_frontend::compression::{decompress_chunk_to_rgba, palette_decode, rle_decode};

#[test]
fn test_rle_decode_empty() {
    let decoded = rle_decode(&[], 100);
    assert_eq!(decoded.len(), 100);
    assert!(decoded.iter().all(|&x| x == 0));
}

#[test]
fn test_rle_decode_single_run() {
    let encoded = vec![0, 10, 0];
    let decoded = rle_decode(&encoded, 10);
    assert_eq!(decoded, vec![0; 10]);
}

#[test]
fn test_rle_decode_multiple_runs() {
    let encoded = vec![0, 5, 0, 0, 3, 1, 0, 2, 0];
    let decoded = rle_decode(&encoded, 10);
    assert_eq!(decoded, vec![0, 0, 0, 0, 0, 1, 1, 1, 0, 0]);
}

#[test]
fn test_rle_decode_large_count() {
    let encoded = vec![3, 232, 5];
    let decoded = rle_decode(&encoded, 1000);
    assert_eq!(decoded.len(), 1000);
    assert!(decoded.iter().all(|&x| x == 5));
}

#[test]
fn test_palette_decode_empty() {
    let palette = palette_decode(&[]);
    assert!(palette.is_empty());
}

#[test]
fn test_palette_decode_single_color() {
    let data = vec![1, 255, 0, 0];
    let palette = palette_decode(&data);
    assert_eq!(palette.len(), 1);
    assert_eq!(palette[0], (255, 0, 0));
}

#[test]
fn test_palette_decode_multiple_colors() {
    let data = vec![3, 255, 0, 0, 0, 255, 0, 0, 0, 255];
    let palette = palette_decode(&data);
    assert_eq!(palette.len(), 3);
    assert_eq!(palette[0], (255, 0, 0));
    assert_eq!(palette[1], (0, 255, 0));
    assert_eq!(palette[2], (0, 0, 255));
}

#[test]
fn test_decompress_chunk_empty() {
    let palette_data = vec![0];
    let rle_data = vec![0, 10, 0];
    let rgba = decompress_chunk_to_rgba(&palette_data, &rle_data, (44, 62, 80));
    assert_eq!(rgba[0], 44);
    assert_eq!(rgba[1], 62);
    assert_eq!(rgba[2], 80);
    assert_eq!(rgba[3], 0x00);
}

#[test]
fn test_decompress_chunk_with_checked() {
    let palette_data = vec![1, 255, 0, 0];
    let rle_data = vec![0, 2, 0, 0, 1, 1, 0, 2, 0];
    let rgba = decompress_chunk_to_rgba(&palette_data, &rle_data, (0, 0, 0));
    assert_eq!(&rgba[0..4], &[0, 0, 0, 0x00]);
    assert_eq!(&rgba[8..12], &[255, 0, 0, 0xFF]);
    assert_eq!(&rgba[12..16], &[0, 0, 0, 0x00]);
}

#[test]
fn rle_decode_truncates_long_runs() {
    let decoded = rle_decode(&[0, 5, 7, 0, 5, 9], 7);
    assert_eq!(decoded, vec![7, 7, 7, 7, 7, 9, 9]);
}

#[test]
fn rle_decode_ignores_trailing_partial_triple() {
    let decoded = rle_decode(&[0, 2, 4, 0, 9], 4);
    assert_eq!(decoded, vec![4, 4, 0, 0]);
}

#[test]
fn palette_decode_stops_at_missing_bytes() {
    // announces three colours but holds one and a half
    let palette = palette_decode(&[3, 1, 2, 3, 4, 5]);
    assert_eq!(palette, vec![(1, 2, 3)]);
}

#[test]
fn palette_decode_stops_at_announced_count() {
    let palette = palette_decode(&[1, 1, 2, 3, 4, 5, 6]);
    assert_eq!(palette, vec![(1, 2, 3)]);
}

#[test]
fn decompress_chunk_out_of_palette_index_is_unchecked() {
    let rgba = decompress_chunk_to_rgba(&[1, 9, 9, 9], &[0, 1, 2], (1, 2, 3));
    assert_eq!(rgba.len(), 4_000_000);
    assert_eq!(&rgba[0..4], &[1, 2, 3, 0]);
    assert_eq!(&rgba[4..8], &[1, 2, 3, 0]);
}
