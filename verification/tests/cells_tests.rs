use checkbox_frontend::cells::{
    encode_batch_update_args, encode_update_checkbox_args, flush_pending_updates, get_checkbox, is_checked, local_to_cell_offset, set_checkbox,
    set_checkbox_checked, set_checkbox_unchecked, toggle_checkbox, CheckboxChunk, ChunkStore,
};
use checkbox_frontend::grid::{chunk_coords_to_id, CHUNK_DATA_SIZE};
use checkbox_frontend::protocol::MainToWorker;

fn row_bytes(chunk_id: i64, state: &[u8], version: u64) -> Vec<u8> {
    let mut b = chunk_id.to_le_bytes().to_vec();
    b.extend_from_slice(&(state.len() as u32).to_le_bytes());
    b.extend_from_slice(state);
    b.extend_from_slice(&version.to_le_bytes());
    b
}

#[test]
fn from_bsatn_reads_a_complete_row() {
    let bytes = row_bytes(-7, &[1, 2, 3], 42);
    let chunk = CheckboxChunk::from_bsatn(&bytes).unwrap();
    assert_eq!(chunk.chunk_id, -7);
    assert_eq!(chunk.state, vec![1, 2, 3]);
    assert_eq!(chunk.version, 42);
}

#[test]
fn from_bsatn_rejects_truncated_rows() {
    let bytes = row_bytes(5, &[9, 9], 1);
    for cut in 0..bytes.len() {
        assert!(CheckboxChunk::from_bsatn(&bytes[..cut]).is_none(), "cut at {}", cut);
    }
    assert!(CheckboxChunk::from_bsatn(&bytes).is_some());
}

#[test]
fn from_bsatn_ignores_trailing_bytes() {
    let mut bytes = row_bytes(1, &[], 3);
    bytes.push(99);
    let chunk = CheckboxChunk::from_bsatn(&bytes).unwrap();
    assert_eq!(chunk.state, Vec::<u8>::new());
    assert_eq!(chunk.version, 3);
}

#[test]
fn get_set_checkbox_roundtrip() {
    let mut data = vec![0u8; 12];
    set_checkbox(&mut data, 1, 10, 20, 30, true);
    assert_eq!(data, vec![0, 0, 0, 0, 10, 20, 30, 0xFF, 0, 0, 0, 0]);
    assert_eq!(get_checkbox(&data, 1), Some((10, 20, 30, true)));
    assert!(is_checked(&data, 1));
    assert!(!is_checked(&data, 0));
    set_checkbox(&mut data, 1, 1, 2, 3, false);
    assert_eq!(get_checkbox(&data, 1), Some((1, 2, 3, false)));
}

#[test]
fn checkbox_past_the_end() {
    let mut data = vec![0u8; 7];
    set_checkbox(&mut data, 1, 1, 1, 1, true);
    assert_eq!(data, vec![0u8; 7]);
    assert_eq!(get_checkbox(&data, 1), None);
    assert!(!is_checked(&data, 5));
}

#[test]
fn cell_offset_is_row_major() {
    assert_eq!(local_to_cell_offset(0, 0), 0);
    assert_eq!(local_to_cell_offset(999, 0), 999);
    assert_eq!(local_to_cell_offset(0, 1), 1000);
    assert_eq!(local_to_cell_offset(999, 999), 999_999);
}

#[test]
fn toggle_creates_chunk_and_flips() {
    let mut store = ChunkStore::new();
    let (v, msg) = toggle_checkbox(&mut store, (1, 2, 3), -1, 1001);
    assert_eq!(v, Some(true));
    let id = chunk_coords_to_id(-1, 1);
    let data = store.chunk(id).unwrap();
    assert_eq!(data.len(), CHUNK_DATA_SIZE);
    let offset = 1 * 1000 + 999;
    assert_eq!(get_checkbox(data, offset), Some((1, 2, 3, true)));
    assert_eq!(
        msg,
        MainToWorker::UpdateCheckbox { chunk_id: id, cell_offset: offset as u32, r: 1, g: 2, b: 3, checked: true }
    );
    let (v2, _) = toggle_checkbox(&mut store, (4, 5, 6), -1, 1001);
    assert_eq!(v2, Some(false));
    assert!(!is_checked(store.chunk(id).unwrap(), offset));
}

#[test]
fn toggle_twice_restores_flag_and_leaves_neighbours() {
    let mut store = ChunkStore::new();
    toggle_checkbox(&mut store, (9, 9, 9), 5, 5);
    toggle_checkbox(&mut store, (1, 1, 1), 6, 5);
    toggle_checkbox(&mut store, (1, 1, 1), 6, 5);
    let data = store.chunk(0).unwrap();
    assert!(is_checked(data, 5005));
    assert!(!is_checked(data, 5006));
}

#[test]
fn drag_fill_and_erase_queue_changes() {
    let mut store = ChunkStore::new();
    let mut pending = Vec::new();
    assert_eq!(set_checkbox_checked(&mut store, &mut pending, (7, 8, 9), 3, 4), Some(true));
    assert_eq!(set_checkbox_checked(&mut store, &mut pending, (7, 8, 9), 3, 4), Some(false));
    assert_eq!(pending, vec![(0i64, 4003u32, 7u8, 8u8, 9u8, true)]);
    assert_eq!(set_checkbox_unchecked(&mut store, &mut pending, (1, 1, 1), 3, 4), Some(true));
    assert_eq!(set_checkbox_unchecked(&mut store, &mut pending, (1, 1, 1), 3, 4), Some(false));
    assert_eq!(pending.len(), 2);
    assert_eq!(pending[1], (0, 4003, 1, 1, 1, false));
    assert_eq!(get_checkbox(store.chunk(0).unwrap(), 4003), Some((1, 1, 1, false)));
}

#[test]
fn erase_on_missing_chunk_creates_empty_chunk_only() {
    let mut store = ChunkStore::new();
    let mut pending = Vec::new();
    assert_eq!(set_checkbox_unchecked(&mut store, &mut pending, (1, 1, 1), -5, -5), Some(false));
    assert!(pending.is_empty());
    let data = store.chunk(chunk_coords_to_id(-1, -1)).unwrap();
    assert!(data.iter().all(|&b| b == 0));
}

#[test]
fn flush_takes_all_pending() {
    let mut pending = vec![(1i64, 2u32, 3u8, 4u8, 5u8, true)];
    let msg = flush_pending_updates(&mut pending);
    assert_eq!(msg, Some(MainToWorker::BatchUpdate { updates: vec![(1, 2, 3, 4, 5, true)] }));
    assert!(pending.is_empty());
    assert_eq!(flush_pending_updates(&mut pending), None);
}

#[test]
fn short_server_chunk_keeps_cells_past_its_end_unchecked() {
    let mut store = ChunkStore::new();
    store.insert_chunk(0, vec![0u8; 8]);
    let (v, _) = toggle_checkbox(&mut store, (1, 1, 1), 500, 500);
    assert_eq!(v, Some(true));
    assert_eq!(store.chunk(0).unwrap(), &vec![0u8; 8]);
}

#[test]
fn update_checkbox_args_bytes() {
    assert_eq!(
        encode_update_checkbox_args(-2, 0x0102_0304, 10, 20, 30, true),
        vec![0xFE, 0xFF, 0xFF, 0xFF, 0xFF, 0xFF, 0xFF, 0xFF, 4, 3, 2, 1, 10, 20, 30, 1]
    );
    assert_eq!(
        encode_update_checkbox_args(1 << 32, 7, 0, 0, 0, false),
        vec![0, 0, 0, 0, 1, 0, 0, 0, 7, 0, 0, 0, 0, 0, 0, 0]
    );
}

#[test]
fn batch_update_args_bytes() {
    assert_eq!(encode_batch_update_args(&[]), vec![0, 0, 0, 0]);
    let args = encode_batch_update_args(&[(1, 2, 3, 4, 5, true), (i64::MIN, u32::MAX, 0, 0, 0, false)]);
    assert_eq!(
        args,
        vec![
            2, 0, 0, 0,
            1, 0, 0, 0, 0, 0, 0, 0, 2, 0, 0, 0, 3, 4, 5, 1,
            0, 0, 0, 0, 0, 0, 0, 0x80, 0xFF, 0xFF, 0xFF, 0xFF, 0, 0, 0, 0,
        ]
    );
}
