use checkbox_frontend::grid::{
    chunk_coords_to_id, chunk_id_to_coords, chunk_range_around, chunks_in_range,
    grid_to_chunk_coords, grid_to_local,
};

#[test]
fn test_grid_to_chunk_coords_positive() {
    assert_eq!(grid_to_chunk_coords(500, 500), (0, 0));
    assert_eq!(grid_to_chunk_coords(1000, 0), (1, 0));
    assert_eq!(grid_to_chunk_coords(2500, 3500), (2, 3));
}

#[test]
fn test_grid_to_chunk_coords_negative() {
    assert_eq!(grid_to_chunk_coords(-1, -1), (-1, -1));
    assert_eq!(grid_to_chunk_coords(-1000, 0), (-1, 0));
    assert_eq!(grid_to_chunk_coords(-1001, 0), (-2, 0));
}

#[test]
fn test_grid_to_local_positive() {
    assert_eq!(grid_to_local(500, 500), (500, 500));
    assert_eq!(grid_to_local(1500, 2500), (500, 500));
}

#[test]
fn test_grid_to_local_negative() {
    assert_eq!(grid_to_local(-1, -1), (999, 999));
    assert_eq!(grid_to_local(-500, -500), (500, 500));
    assert_eq!(grid_to_local(-1000, 0), (0, 0));
}

#[test]
fn test_chunk_coords_roundtrip() {
    let test_cases = [(0, 0), (1, 2), (-1, -1), (1000, -2000), (i32::MAX, i32::MIN)];
    for (x, y) in test_cases {
        let id = chunk_coords_to_id(x, y);
        let (rx, ry) = chunk_id_to_coords(id);
        assert_eq!((rx, ry), (x, y), "Failed for ({}, {})", x, y);
    }
}

#[test]
fn test_chunk_id_zero() {
    let id = chunk_coords_to_id(0, 0);
    println!("chunk_coords_to_id(0, 0) = {}", id);
    assert_eq!(id, 0);
}

#[test]
fn chunk_id_layout() {
    assert_eq!(chunk_coords_to_id(1, 0), 1i64 << 32);
    assert_eq!(chunk_coords_to_id(0, -1), 0xFFFF_FFFF);
    assert_eq!(chunk_coords_to_id(-1, -1), -1);
    assert_eq!(chunk_id_to_coords(-1), (-1, -1));
    assert_eq!(chunk_id_to_coords(i64::MIN), (i32::MIN, 0));
}

#[test]
fn grid_extremes() {
    assert_eq!(grid_to_chunk_coords(i32::MIN, i32::MAX), (-2147484, 2147483));
    assert_eq!(grid_to_local(i32::MIN, i32::MAX), (352, 647));
}

#[test]
fn chunk_range_widened_by_one() {
    assert_eq!(chunk_range_around(0, 0, 999, 999), (-1, -1, 1, 1));
    assert_eq!(chunk_range_around(-1, -1000, 1000, 1999), (-2, -2, 2, 2));
}

#[test]
fn chunks_in_range_row_by_row() {
    assert_eq!(chunks_in_range(-1, 0, 0, 1), vec![(-1, 0), (0, 0), (-1, 1), (0, 1)]);
    assert_eq!(chunks_in_range(2, 0, 1, 0), Vec::<(i32, i32)>::new());
    assert_eq!(chunks_in_range(0, 3, 0, 2), Vec::<(i32, i32)>::new());
}
