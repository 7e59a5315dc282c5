//! Checkbox cells inside RGBA chunk data, the chunk rows sent by the server,
//! and the optimistic local edits made before the server confirms them.
//!
//! A chunk's data holds four bytes per cell: `r, g, b, flag`; the cell is
//! checked when its flag byte is not zero.

use vstd::prelude::*;
use std::collections::HashMap;
use crate::grid::{
    chunk_of, local_of, spec_chunk_id, grid_to_chunk_coords, grid_to_local, chunk_coords_to_id,
    CHUNK_DATA_SIZE, CHUNK_SIZE,
};
use crate::le::{
    i64_le_bytes, le_i64, le_u32, le_u64, push_i64_le, push_u32_le, read_i64_le, read_u32_le,
    read_u64_le, u32_le_bytes,
};
use crate::protocol::{MainToWorker, PendingUpdate};

verus! {

broadcast use vstd::std_specs::hash::group_hash_axioms;

/// A chunk row as the server stores it.
#[derive(Debug, Clone)]
pub struct CheckboxChunk {
    pub chunk_id: i64,
    pub state: Vec<u8>,
    pub version: u64,
}

/// Where the fields of a BSATN-encoded chunk row lie, when the row is complete:
/// `chunk_id: i64` (8 bytes), `state` as a `u32` length and that many bytes,
/// `version: u64` (8 bytes).
pub open spec fn chunk_row_complete(b: Seq<u8>) -> bool {
    b.len() >= 12 && b.len() >= 12 + le_u32(b, 8) + 8
}

impl CheckboxChunk {
    /// Reads a chunk row from its BSATN bytes; `None` when the bytes end before the row does.
    pub fn from_bsatn(bytes: &[u8]) -> (r: Option<CheckboxChunk>)
        ensures
            r is Some <==> chunk_row_complete(bytes@),
            r matches Some(c) ==> {
                let n = le_u32(bytes@, 8);
                &&& c.chunk_id as int == le_i64(bytes@, 0)
                &&& c.state@ == bytes@.subrange(12, 12 + n)
                &&& c.version as int == le_u64(bytes@, 12 + n)
            },
    {
        if bytes.len() < 8 {
            return None;
        }
        let chunk_id = read_i64_le(bytes, 0);
        if bytes.len() - 8 < 4 {
            return None;
        }
        let state_len = read_u32_le(bytes, 8) as usize;
        if bytes.len() - 12 < state_len {
            return None;
        }
        let end = 12 + state_len;
        let mut state: Vec<u8> = Vec::with_capacity(state_len);
        let mut i: usize = 12;
        while i < end
            invariant
                12 <= i <= end <= bytes.len(),
                state@ == bytes@.subrange(12, i as int),
            decreases end - i,
        {
            state.push(bytes[i]);
            i = i + 1;
            assert(state@ =~= bytes@.subrange(12, i as int));
        }
        if bytes.len() - end < 8 {
            return None;
        }
        let version = read_u64_le(bytes, end);
        Some(CheckboxChunk { chunk_id, state, version })
    }
}

/// The checked flag of cell `ci` in chunk data `d`; cells past the end are unchecked.
pub open spec fn cell_is_checked(d: Seq<u8>, ci: int) -> bool {
    4 * ci + 3 < d.len() && d[4 * ci + 3] != 0
}

/// Chunk data `d` with cell `ci` set to colour `(r, g, b)` and the given flag;
/// unchanged when the cell lies past the end.
pub open spec fn cell_set(d: Seq<u8>, ci: int, r: u8, g: u8, b: u8, checked: bool) -> Seq<u8> {
    if 4 * ci + 3 < d.len() {
        d.update(4 * ci, r).update(4 * ci + 1, g).update(4 * ci + 2, b).update(
            4 * ci + 3,
            if checked { 0xFFu8 } else { 0u8 },
        )
    } else {
        d
    }
}

/// Reads cell `cell_index`: its colour and whether it is checked; `None` past the end.
pub fn get_checkbox(data: &[u8], cell_index: usize) -> (r: Option<(u8, u8, u8, bool)>)
    requires
        4 * cell_index + 3 <= usize::MAX,
    ensures
        r is Some <==> 4 * cell_index + 3 < data@.len(),
        r matches Some(c) ==> {
            &&& c.0 == data@[4 * cell_index]
            &&& c.1 == data@[4 * cell_index + 1]
            &&& c.2 == data@[4 * cell_index + 2]
            &&& c.3 == cell_is_checked(data@, cell_index as int)
        },
{
    let byte_idx = cell_index * 4;
    if byte_idx + 3 < data.len() {
        Some((data[byte_idx], data[byte_idx + 1], data[byte_idx + 2], data[byte_idx + 3] != 0))
    } else {
        None
    }
}

/// Sets cell `cell_index` to colour `(r, g, b)` and the given checked flag; no effect past the end.
pub fn set_checkbox(data: &mut [u8], cell_index: usize, r: u8, g: u8, b: u8, checked: bool)
    requires
        4 * cell_index + 3 <= usize::MAX,
    ensures
        final(data)@ == cell_set(old(data)@, cell_index as int, r, g, b, checked),
{
    let byte_idx = cell_index * 4;
    if byte_idx + 3 < data.len() {
        data[byte_idx] = r;
        data[byte_idx + 1] = g;
        data[byte_idx + 2] = b;
        data[byte_idx + 3] = if checked { 0xFF } else { 0x00 };
        assert(data@ =~= cell_set(old(data)@, cell_index as int, r, g, b, checked));
    }
}

/// Whether cell `cell_index` is checked; cells past the end are unchecked.
pub fn is_checked(data: &[u8], cell_index: usize) -> (r: bool)
    requires
        4 * cell_index + 3 <= usize::MAX,
    ensures
        r == cell_is_checked(data@, cell_index as int),
{
    let byte_idx = cell_index * 4 + 3;
    if byte_idx < data.len() {
        data[byte_idx] != 0
    } else {
        false
    }
}

/// Row-major index of a local cell inside its chunk.
pub fn local_to_cell_offset(local_col: u32, local_row: u32) -> (r: u32)
    requires
        local_row * CHUNK_SIZE + local_col <= u32::MAX,
    ensures
        r == local_row * CHUNK_SIZE + local_col,
{
    local_row * CHUNK_SIZE + local_col
}

/// Setting a cell then reading it gives back what was set, when the cell lies in the data.
pub proof fn lemma_set_then_get(d: Seq<u8>, ci: int, r: u8, g: u8, b: u8, checked: bool)
    requires
        0 <= ci,
        4 * ci + 3 < d.len(),
    ensures
        cell_is_checked(cell_set(d, ci, r, g, b, checked), ci) == checked,
        cell_set(d, ci, r, g, b, checked)[4 * ci] == r,
        cell_set(d, ci, r, g, b, checked)[4 * ci + 1] == g,
        cell_set(d, ci, r, g, b, checked)[4 * ci + 2] == b,
{
}

/// Setting a cell leaves every other cell as it was.
pub proof fn lemma_set_keeps_other_cells(
    d: Seq<u8>,
    ci: int,
    other: int,
    r: u8,
    g: u8,
    b: u8,
    checked: bool,
)
    requires
        0 <= ci,
        0 <= other,
        other != ci,
    ensures
        cell_set(d, ci, r, g, b, checked).len() == d.len(),
        forall|k: int|
            0 <= k < 4 && 4 * other + k < d.len() ==> #[trigger] cell_set(d, ci, r, g, b, checked)[4
                * other + k] == d[4 * other + k],
        cell_is_checked(cell_set(d, ci, r, g, b, checked), other) == cell_is_checked(d, other),
{
}

/// An empty chunk: every cell unchecked and black.
pub open spec fn empty_chunk() -> Seq<u8> {
    Seq::new(CHUNK_DATA_SIZE as nat, |i: int| 0u8)
}

/// The id of the chunk that holds global cell `(col, row)`.
pub open spec fn cell_chunk_id(col: int, row: int) -> int {
    spec_chunk_id(chunk_of(col), chunk_of(row))
}

/// The index of global cell `(col, row)` inside its chunk.
pub open spec fn cell_offset(col: int, row: int) -> int {
    local_of(row) * (CHUNK_SIZE as int) + local_of(col)
}

/// The chunks that the client holds, by chunk id.
pub struct ChunkStore {
    chunks: HashMap<i64, Vec<u8>>,
}

impl View for ChunkStore {
    type V = Map<i64, Seq<u8>>;

    closed spec fn view(&self) -> Map<i64, Seq<u8>> {
        self.chunks@.map_values(|v: Vec<u8>| v@)
    }
}

/// Whether global cell `(col, row)` is checked in the chunks `m`; a cell of an
/// absent chunk is unchecked.
pub open spec fn cell_checked(m: Map<i64, Seq<u8>>, col: int, row: int) -> bool {
    let id = cell_chunk_id(col, row) as i64;
    m.contains_key(id) && cell_is_checked(m[id], cell_offset(col, row))
}

/// The chunks after global cell `(col, row)` was set: its chunk is created
/// empty when absent, then the cell takes the colour and flag.
pub open spec fn store_set_cell(
    m: Map<i64, Seq<u8>>,
    col: int,
    row: int,
    r: u8,
    g: u8,
    b: u8,
    checked: bool,
) -> Map<i64, Seq<u8>> {
    let id = cell_chunk_id(col, row) as i64;
    let data = if m.contains_key(id) { m[id] } else { empty_chunk() };
    m.insert(id, cell_set(data, cell_offset(col, row), r, g, b, checked))
}

/// The chunks after global cell `(col, row)` was looked at: its chunk is created empty when absent.
pub open spec fn store_with_chunk(m: Map<i64, Seq<u8>>, col: int, row: int) -> Map<i64, Seq<u8>> {
    let id = cell_chunk_id(col, row) as i64;
    if m.contains_key(id) { m } else { m.insert(id, empty_chunk()) }
}

/// Facts about where a global cell lives, for every `i32` pair.
proof fn lemma_cell_position(col: i32, row: i32)
    ensures
        0 <= cell_offset(col as int, row as int) < 1_000_000,
        i64::MIN <= cell_chunk_id(col as int, row as int) <= i64::MAX,
{
    crate::grid::lemma_grid_decomposition(col as int);
    crate::grid::lemma_grid_decomposition(row as int);
    let lr = local_of(row as int);
    let lc = local_of(col as int);
    assert(0 <= lr * 1000 <= 999 * 1000) by (nonlinear_arith)
        requires
            0 <= lr < 1000,
    ;
    assert(-2147484 <= chunk_of(col as int) <= 2147483);
    assert(-2147484 <= chunk_of(row as int) <= 2147483);
    let cx = chunk_of(col as int);
    assert(-2147484 * 0x1_0000_0000 <= cx * 0x1_0000_0000 <= 2147483 * 0x1_0000_0000)
        by (nonlinear_arith)
        requires
            -2147484 <= cx <= 2147483,
    ;
}

impl ChunkStore {
    /// A store holding no chunks.
    pub fn new() -> (s: ChunkStore)
        ensures
            s@ == Map::<i64, Seq<u8>>::empty(),
    {
        let s = ChunkStore { chunks: HashMap::new() };
        assert(s@ =~= Map::<i64, Seq<u8>>::empty());
        s
    }

    /// The data of chunk `chunk_id`, if held.
    pub fn chunk(&self, chunk_id: i64) -> (r: Option<&Vec<u8>>)
        ensures
            r is Some <==> self@.contains_key(chunk_id),
            r matches Some(v) ==> v@ == self@[chunk_id],
    {
        self.chunks.get(&chunk_id)
    }

    /// Stores `data` as chunk `chunk_id`, replacing what was held.
    pub fn insert_chunk(&mut self, chunk_id: i64, data: Vec<u8>)
        ensures
            final(self)@ == old(self)@.insert(chunk_id, data@),
    {
        self.chunks.insert(chunk_id, data);
        assert(self@ =~= old(self)@.insert(chunk_id, data@));
    }

    /// Takes chunk `chunk_id` out of the store, creating it empty when absent.
    fn take_or_create(&mut self, chunk_id: i64) -> (data: Vec<u8>)
        ensures
            final(self)@ == old(self)@.remove(chunk_id),
            data@ == (if old(self)@.contains_key(chunk_id) { old(self)@[chunk_id] } else {
                empty_chunk()
            }),
    {
        let taken = self.chunks.remove(&chunk_id);
        assert(self@ =~= old(self)@.remove(chunk_id));
        match taken {
            Some(d) => d,
            None => {
                let d = vec![0u8; CHUNK_DATA_SIZE];
                assert(d@ =~= empty_chunk());
                d
            },
        }
    }
}

/// Where global cell `(col, row)` lives: its chunk id and its index inside the chunk.
fn locate(col: i32, row: i32) -> (r: (i64, usize))
    ensures
        r.0 as int == cell_chunk_id(col as int, row as int),
        r.1 as int == cell_offset(col as int, row as int),
        r.1 < 1_000_000,
{
    let (chunk_x, chunk_y) = grid_to_chunk_coords(col, row);
    let chunk_id = chunk_coords_to_id(chunk_x, chunk_y);
    let (local_col, local_row) = grid_to_local(col, row);
    proof {
        assert(local_row * CHUNK_SIZE + local_col <= 999 * 1000 + 999) by (nonlinear_arith)
            requires
                local_row < 1000,
                local_col < 1000,
        ;
    }
    let cell_offset = local_to_cell_offset(local_col, local_row) as usize;
    (chunk_id, cell_offset)
}

/// Flips global cell `(col, row)` for immediate feedback: its chunk is
/// created empty when absent, the cell takes the user's colour and the
/// opposite flag.  Returns the new flag and the message that tells the
/// server.
pub fn toggle_checkbox(store: &mut ChunkStore, user_color: (u8, u8, u8), col: i32, row: i32) -> (r:
    (Option<bool>, MainToWorker))
    ensures
        r.0 == Some(!cell_checked(old(store)@, col as int, row as int)),
        final(store)@ == store_set_cell(
            old(store)@,
            col as int,
            row as int,
            user_color.0,
            user_color.1,
            user_color.2,
            !cell_checked(old(store)@, col as int, row as int),
        ),
        r.1 == (MainToWorker::UpdateCheckbox {
            chunk_id: cell_chunk_id(col as int, row as int) as i64,
            cell_offset: cell_offset(col as int, row as int) as u32,
            r: user_color.0,
            g: user_color.1,
            b: user_color.2,
            checked: !cell_checked(old(store)@, col as int, row as int),
        }),
{
    let (chunk_id, cell_offset) = locate(col, row);
    let (r, g, b) = user_color;
    let mut data = store.take_or_create(chunk_id);
    let current_value = is_checked(&data, cell_offset);
    let new_value = !current_value;
    set_checkbox(&mut data, cell_offset, r, g, b, new_value);
    store.insert_chunk(chunk_id, data);
    proof {
        assert(store@ =~= store_set_cell(old(store)@, col as int, row as int, r, g, b, new_value));
    }
    let msg = MainToWorker::UpdateCheckbox {
        chunk_id,
        cell_offset: cell_offset as u32,
        r,
        g,
        b,
        checked: new_value,
    };
    (Some(new_value), msg)
}

/// Checks global cell `(col, row)` for drag-to-fill.  When it was unchecked,
/// it takes the user's colour, the change is queued in `pending` and the
/// result is `Some(true)`; when it was already checked nothing changes but
/// the chunk's creation, and the result is `Some(false)`.
pub fn set_checkbox_checked(
    store: &mut ChunkStore,
    pending: &mut Vec<PendingUpdate>,
    user_color: (u8, u8, u8),
    col: i32,
    row: i32,
) -> (r: Option<bool>)
    ensures
        r == Some(!cell_checked(old(store)@, col as int, row as int)),
        cell_checked(old(store)@, col as int, row as int) ==> {
            &&& final(store)@ == store_with_chunk(old(store)@, col as int, row as int)
            &&& final(pending)@ == old(pending)@
        },
        !cell_checked(old(store)@, col as int, row as int) ==> {
            &&& final(store)@ == store_set_cell(
                old(store)@,
                col as int,
                row as int,
                user_color.0,
                user_color.1,
                user_color.2,
                true,
            )
            &&& final(pending)@ == old(pending)@.push(
                (
                    cell_chunk_id(col as int, row as int) as i64,
                    cell_offset(col as int, row as int) as u32,
                    user_color.0,
                    user_color.1,
                    user_color.2,
                    true,
                ),
            )
        },
{
    set_cell_if_changes(store, pending, user_color, col, row, true)
}

/// Unchecks global cell `(col, row)` for the eraser.  When it was checked,
/// it is cleared (keeping the user's colour in its colour bytes), the change
/// is queued in `pending` and the result is `Some(true)`; when it was
/// already unchecked nothing changes but the chunk's creation, and the
/// result is `Some(false)`.
pub fn set_checkbox_unchecked(
    store: &mut ChunkStore,
    pending: &mut Vec<PendingUpdate>,
    user_color: (u8, u8, u8),
    col: i32,
    row: i32,
) -> (r: Option<bool>)
    ensures
        r == Some(cell_checked(old(store)@, col as int, row as int)),
        !cell_checked(old(store)@, col as int, row as int) ==> {
            &&& final(store)@ == store_with_chunk(old(store)@, col as int, row as int)
            &&& final(pending)@ == old(pending)@
        },
        cell_checked(old(store)@, col as int, row as int) ==> {
            &&& final(store)@ == store_set_cell(
                old(store)@,
                col as int,
                row as int,
                user_color.0,
                user_color.1,
                user_color.2,
                false,
            )
            &&& final(pending)@ == old(pending)@.push(
                (
                    cell_chunk_id(col as int, row as int) as i64,
                    cell_offset(col as int, row as int) as u32,
                    user_color.0,
                    user_color.1,
                    user_color.2,
                    false,
                ),
            )
        },
{
    set_cell_if_changes(store, pending, user_color, col, row, false)
}

/// Sets global cell `(col, row)` to `target` when its flag differs, queuing the change.
fn set_cell_if_changes(
    store: &mut ChunkStore,
    pending: &mut Vec<PendingUpdate>,
    user_color: (u8, u8, u8),
    col: i32,
    row: i32,
    target: bool,
) -> (r: Option<bool>)
    ensures
        r == Some(cell_checked(old(store)@, col as int, row as int) != target),
        cell_checked(old(store)@, col as int, row as int) == target ==> {
            &&& final(store)@ == store_with_chunk(old(store)@, col as int, row as int)
            &&& final(pending)@ == old(pending)@
        },
        cell_checked(old(store)@, col as int, row as int) != target ==> {
            &&& final(store)@ == store_set_cell(
                old(store)@,
                col as int,
                row as int,
                user_color.0,
                user_color.1,
                user_color.2,
                target,
            )
            &&& final(pending)@ == old(pending)@.push(
                (
                    cell_chunk_id(col as int, row as int) as i64,
                    cell_offset(col as int, row as int) as u32,
                    user_color.0,
                    user_color.1,
                    user_color.2,
                    target,
                ),
            )
        },
{
    let (chunk_id, cell_offset) = locate(col, row);
    let (r, g, b) = user_color;
    let mut data = store.take_or_create(chunk_id);
    let current_value = is_checked(&data, cell_offset);
    if current_value == target {
        store.insert_chunk(chunk_id, data);
        proof {
            assert(store@ =~= store_with_chunk(old(store)@, col as int, row as int));
        }
        return Some(false);
    }
    set_checkbox(&mut data, cell_offset, r, g, b, target);
    store.insert_chunk(chunk_id, data);
    proof {
        assert(store@ =~= store_set_cell(old(store)@, col as int, row as int, r, g, b, target));
    }
    pending.push((chunk_id, cell_offset as u32, r, g, b, target));
    Some(true)
}

/// Takes every queued change out of `pending` for one batch message; `None`
/// (and `pending` untouched) when nothing is queued.
pub fn flush_pending_updates(pending: &mut Vec<PendingUpdate>) -> (r: Option<MainToWorker>)
    ensures
        old(pending)@.len() == 0 ==> r is None && final(pending)@ == old(pending)@,
        old(pending)@.len() > 0 ==> {
            &&& final(pending)@ == Seq::<PendingUpdate>::empty()
            &&& r matches Some(MainToWorker::BatchUpdate { updates }) && updates@ == old(pending)@
        },
{
    if pending.len() == 0 {
        return None;
    }
    let mut updates: Vec<PendingUpdate> = Vec::new();
    std::mem::swap(&mut updates, pending);
    Some(MainToWorker::BatchUpdate { updates })
}

/// The reducer arguments of `update_checkbox` for one change: the chunk id
/// as a little-endian `i64`, the cell offset as a little-endian `u32`,
/// `r, g, b`, and `1` or `0` for checked.
pub open spec fn update_args(u: PendingUpdate) -> Seq<u8> {
    i64_le_bytes(u.0) + u32_le_bytes(u.1) + seq![u.2, u.3, u.4, if u.5 { 1u8 } else { 0u8 }]
}

/// The arguments of several changes, one after another.
pub open spec fn updates_args(ups: Seq<PendingUpdate>) -> Seq<u8>
    decreases ups.len(),
{
    if ups.len() == 0 {
        Seq::empty()
    } else {
        updates_args(ups.drop_last()) + update_args(ups.last())
    }
}

/// The reducer arguments of `batch_update_checkboxes`: the number of changes
/// (modulo `2^32`) as a little-endian `u32`, then each change as for `update_checkbox`.
pub open spec fn batch_update_args(ups: Seq<PendingUpdate>) -> Seq<u8> {
    u32_le_bytes((ups.len() % 0x1_0000_0000) as u32) + updates_args(ups)
}

fn push_update_args(buf: &mut Vec<u8>, u: PendingUpdate)
    ensures
        final(buf)@ == old(buf)@ + update_args(u),
{
    let ghost before = buf@;
    push_i64_le(buf, u.0);
    push_u32_le(buf, u.1);
    buf.push(u.2);
    buf.push(u.3);
    buf.push(u.4);
    buf.push(if u.5 { 1 } else { 0 });
    assert(buf@ =~= before + update_args(u));
}

/// Encodes the reducer arguments of `update_checkbox` (see [`update_args`]).
pub fn encode_update_checkbox_args(chunk_id: i64, cell_offset: u32, r: u8, g: u8, b: u8, checked: bool) -> (res: Vec<u8>)
    ensures
        res@ == update_args((chunk_id, cell_offset, r, g, b, checked)),
{
    let mut buf: Vec<u8> = Vec::with_capacity(16);
    push_update_args(&mut buf, (chunk_id, cell_offset, r, g, b, checked));
    assert(buf@ =~= update_args((chunk_id, cell_offset, r, g, b, checked)));
    buf
}

/// Encodes the reducer arguments of `batch_update_checkboxes` (see [`batch_update_args`]).
pub fn encode_batch_update_args(updates: &[PendingUpdate]) -> (res: Vec<u8>)
    ensures
        res@ == batch_update_args(updates@),
{
    let mut buf: Vec<u8> = Vec::new();
    let count: u32 = ((updates.len() as u64) % 0x1_0000_0000) as u32;
    push_u32_le(&mut buf, count);
    let ghost head = buf@;
    let mut i: usize = 0;
    assert(head =~= head + updates_args(updates@.take(0)));
    while i < updates.len()
        invariant
            i <= updates@.len(),
            head == u32_le_bytes((updates@.len() % 0x1_0000_0000) as u32),
            buf@ == head + updates_args(updates@.take(i as int)),
        decreases updates@.len() - i,
    {
        push_update_args(&mut buf, updates[i]);
        proof {
            assert(updates@.take(i + 1).drop_last() =~= updates@.take(i as int));
            assert(buf@ =~= head + updates_args(updates@.take(i + 1)));
        }
        i = i + 1;
    }
    assert(updates@.take(updates@.len() as int) =~= updates@);
    buf
}

/// Whether the cell's chunk, when held, is long enough to hold global cell `(col, row)`.
pub open spec fn cell_in_chunk(m: Map<i64, Seq<u8>>, col: int, row: int) -> bool {
    let id = cell_chunk_id(col, row) as i64;
    m.contains_key(id) ==> 4 * cell_offset(col, row) + 3 < m[id].len()
}

/// Two different global cells never share both a chunk and an index inside it.
pub proof fn lemma_cells_distinct(col: i32, row: i32, col2: i32, row2: i32)
    requires
        col != col2 || row != row2,
    ensures
        cell_chunk_id(col as int, row as int) != cell_chunk_id(col2 as int, row2 as int)
            || cell_offset(col as int, row as int) != cell_offset(col2 as int, row2 as int),
{
    crate::grid::lemma_grid_decomposition(col as int);
    crate::grid::lemma_grid_decomposition(row as int);
    crate::grid::lemma_grid_decomposition(col2 as int);
    crate::grid::lemma_grid_decomposition(row2 as int);
    lemma_cell_position(col, row);
    lemma_cell_position(col2, row2);
    let cx = chunk_of(col as int);
    let cy = chunk_of(row as int);
    let cx2 = chunk_of(col2 as int);
    let cy2 = chunk_of(row2 as int);
    assert(-2147484 <= cx <= 2147483 && -2147484 <= cy <= 2147483);
    assert(-2147484 <= cx2 <= 2147483 && -2147484 <= cy2 <= 2147483);
    if cell_chunk_id(col as int, row as int) == cell_chunk_id(col2 as int, row2 as int)
        && cell_offset(col as int, row as int) == cell_offset(col2 as int, row2 as int) {
        crate::grid::lemma_chunk_id_roundtrip(cx as i32, cy as i32);
        crate::grid::lemma_chunk_id_roundtrip(cx2 as i32, cy2 as i32);
        assert(cx == cx2 && cy == cy2);
        let lr = local_of(row as int);
        let lc = local_of(col as int);
        let lr2 = local_of(row2 as int);
        let lc2 = local_of(col2 as int);
        assert(lr == lr2 && lc == lc2) by (nonlinear_arith)
            requires
                lr * 1000 + lc == lr2 * 1000 + lc2,
                0 <= lc < 1000,
                0 <= lc2 < 1000,
                0 <= lr,
                0 <= lr2,
        ;
    }
}

/// After global cell `(col, row)` is set to a flag, it reads back that flag,
/// and every other cell reads as before.
pub proof fn lemma_store_set_cell(
    m: Map<i64, Seq<u8>>,
    col: i32,
    row: i32,
    r: u8,
    g: u8,
    b: u8,
    checked: bool,
    col2: i32,
    row2: i32,
)
    requires
        cell_in_chunk(m, col as int, row as int),
    ensures
        cell_checked(store_set_cell(m, col as int, row as int, r, g, b, checked), col as int, row as int)
            == checked,
        (col != col2 || row != row2) ==> cell_checked(
            store_set_cell(m, col as int, row as int, r, g, b, checked),
            col2 as int,
            row2 as int,
        ) == cell_checked(m, col2 as int, row2 as int),
{
    lemma_cell_position(col, row);
    lemma_cell_position(col2, row2);
    if col != col2 || row != row2 {
        lemma_cells_distinct(col, row, col2, row2);
        let id = cell_chunk_id(col as int, row as int) as i64;
        let id2 = cell_chunk_id(col2 as int, row2 as int) as i64;
        let ci = cell_offset(col as int, row as int);
        let ci2 = cell_offset(col2 as int, row2 as int);
        if id == id2 {
            let data = if m.contains_key(id) { m[id] } else { empty_chunk() };
            lemma_set_keeps_other_cells(data, ci, ci2, r, g, b, checked);
        }
    }
}

/// Creating a missing chunk checks no cell: every cell reads as before.
pub proof fn lemma_store_with_chunk(m: Map<i64, Seq<u8>>, col: i32, row: i32, col2: i32, row2: i32)
    ensures
        cell_checked(store_with_chunk(m, col as int, row as int), col2 as int, row2 as int)
            == cell_checked(m, col2 as int, row2 as int),
{
}

/// Toggling a cell twice gives it back its flag, and every cell keeps its flag.
pub proof fn lemma_toggle_twice(m: Map<i64, Seq<u8>>, col: i32, row: i32, r: u8, g: u8, b: u8, col2: i32, row2: i32)
    requires
        cell_in_chunk(m, col as int, row as int),
    ensures
        ({
            let once = store_set_cell(m, col as int, row as int, r, g, b, !cell_checked(m, col as int, row as int));
            let twice = store_set_cell(once, col as int, row as int, r, g, b, !cell_checked(once, col as int, row as int));
            cell_checked(twice, col2 as int, row2 as int) == cell_checked(m, col2 as int, row2 as int)
        }),
{
    let c = cell_checked(m, col as int, row as int);
    let once = store_set_cell(m, col as int, row as int, r, g, b, !c);
    lemma_store_set_cell(m, col, row, r, g, b, !c, col2, row2);
    lemma_cell_position(col, row);
    assert(cell_in_chunk(once, col as int, row as int));
    lemma_store_set_cell(once, col, row, r, g, b, c, col2, row2);
}

} // verus!
