//! Doom frames: the full RGBA snapshot of the Doom screen, the packed frame
//! deltas broadcast to spectators, and the pixel updates behind both.
//!
//! A packed delta holds 7 bytes per pixel: a 24-bit big-endian pixel offset,
//! then `r, g, b`, then a checked byte (`1` or `0`).

use vstd::prelude::*;
use crate::cells::cell_set;
use crate::le::{le_u32, push_u32_le, read_u32_le, u32_le_bytes};

verus! {

/// Width of the Doom screen in pixels.
pub const DOOM_WIDTH: usize = 640;

/// Height of the Doom screen in pixels.
pub const DOOM_HEIGHT: usize = 400;

/// Bytes of the full RGBA Doom screen.
pub const SNAPSHOT_BYTES: usize = 1024000;

/// A broadcast frame row: a packed delta of changed pixels.
#[derive(Debug, Clone)]
pub struct Frame {
    pub id: u64,
    pub data: Vec<u8>,
}

/// The single snapshot row: the full RGBA state of the Doom screen.
#[derive(Debug, Clone)]
pub struct Snapshot {
    pub id: u64,
    pub state: Vec<u8>,
}

/// One changed pixel of a Doom frame.
#[derive(Debug, Clone, Copy, PartialEq, Eq)]
pub struct PixelUpdate {
    pub offset: u32,
    pub r: u8,
    pub g: u8,
    pub b: u8,
    pub checked: bool,
}

/// RGBA state `s` after pixel update `u`: the pixel takes the colour and
/// the flag (`0xFF` checked, `0` not); pixels past the end are dropped.
pub open spec fn apply_pixel(s: Seq<u8>, u: PixelUpdate) -> Seq<u8> {
    cell_set(s, u.offset as int, u.r, u.g, u.b, u.checked)
}

/// RGBA state `s` after the updates `ups`, in order.
pub open spec fn apply_pixels(s: Seq<u8>, ups: Seq<PixelUpdate>) -> Seq<u8>
    decreases ups.len(),
{
    if ups.len() == 0 {
        s
    } else {
        apply_pixel(apply_pixels(s, ups.drop_last()), ups.last())
    }
}

/// The 7 delta bytes of one update: offset bits 16..24, 8..16, 0..8, colour, checked byte.
pub open spec fn packed_pixel(u: PixelUpdate) -> Seq<u8> {
    seq![
        ((u.offset / 0x1_0000) % 0x100) as u8,
        ((u.offset / 0x100) % 0x100) as u8,
        (u.offset % 0x100) as u8,
        u.r,
        u.g,
        u.b,
        if u.checked { 1u8 } else { 0u8 },
    ]
}

/// The packed delta of the updates `ups`, in order.
pub open spec fn packed_delta(ups: Seq<PixelUpdate>) -> Seq<u8>
    decreases ups.len(),
{
    if ups.len() == 0 {
        Seq::empty()
    } else {
        packed_delta(ups.drop_last()) + packed_pixel(ups.last())
    }
}

/// Length of a packed delta.
proof fn lemma_packed_delta_len(ups: Seq<PixelUpdate>)
    ensures
        packed_delta(ups).len() == 7 * ups.len(),
    decreases ups.len(),
{
    if ups.len() > 0 {
        lemma_packed_delta_len(ups.drop_last());
    }
}

/// Applying a prefix then one more update is applying the longer prefix.
proof fn lemma_apply_pixels_step(s: Seq<u8>, ups: Seq<PixelUpdate>, i: int)
    requires
        0 <= i < ups.len(),
    ensures
        apply_pixels(s, ups.take(i + 1)) == apply_pixel(apply_pixels(s, ups.take(i)), ups[i]),
{
    assert(ups.take(i + 1).drop_last() =~= ups.take(i));
}

/// A snapshot that does not exist yet: every pixel black and unchecked.
pub open spec fn blank_snapshot() -> Seq<u8> {
    Seq::new(SNAPSHOT_BYTES as nat, |i: int| 0u8)
}

/// Updates never change the length of the state.
proof fn lemma_apply_pixels_len(s: Seq<u8>, ups: Seq<PixelUpdate>)
    ensures
        apply_pixels(s, ups).len() == s.len(),
    decreases ups.len(),
{
    if ups.len() > 0 {
        lemma_apply_pixels_len(s, ups.drop_last());
    }
}

/// Updates leave every byte of a pixel that none of them names as it was,
/// and the state as long as it was.
pub proof fn lemma_untouched_pixels_kept(s: Seq<u8>, ups: Seq<PixelUpdate>, j: int)
    requires
        0 <= j < s.len(),
        forall|k: int| 0 <= k < ups.len() ==> (#[trigger] ups[k]).offset != j / 4,
    ensures
        apply_pixels(s, ups).len() == s.len(),
        apply_pixels(s, ups)[j] == s[j],
    decreases ups.len(),
{
    if ups.len() > 0 {
        let init = ups.drop_last();
        assert forall|k: int| 0 <= k < init.len() implies (#[trigger] init[k]).offset != j / 4 by {
            assert(init[k] == ups[k]);
        }
        lemma_untouched_pixels_kept(s, init, j);
        let u = ups.last();
        assert(u == ups[ups.len() - 1]);
        assert(u.offset != j / 4);
        let prev = apply_pixels(s, init);
        let ci = u.offset as int;
        if 4 * ci + 3 < prev.len() {
            assert(j < 4 * ci || j > 4 * ci + 3);
        }
    }
}

/// The first frame (no snapshot row yet) starts from a screen of zeros:
/// every byte of a pixel that no update names is `0`.
pub proof fn lemma_fresh_snapshot_untouched_zero(ups: Seq<PixelUpdate>, j: int)
    requires
        0 <= j < SNAPSHOT_BYTES,
        forall|k: int| 0 <= k < ups.len() ==> (#[trigger] ups[k]).offset != j / 4,
    ensures
        apply_pixels(blank_snapshot(), ups).len() == SNAPSHOT_BYTES,
        apply_pixels(blank_snapshot(), ups)[j] == 0,
{
    lemma_untouched_pixels_kept(blank_snapshot(), ups, j);
}

/// Sets pixel `u.offset` of `state` (when it lies inside) to the update's colour and flag.
fn apply_pixel_update(state: &mut Vec<u8>, u: PixelUpdate)
    ensures
        final(state)@ == apply_pixel(old(state)@, u),
{
    let idx: u64 = (u.offset as u64) * 4;
    if idx + 3 < state.len() as u64 {
        let i = idx as usize;
        state.set(i, u.r);
        state.set(i + 1, u.g);
        state.set(i + 2, u.b);
        state.set(i + 3, if u.checked { 0xFF } else { 0x00 });
        assert(state@ =~= apply_pixel(old(state)@, u));
    } else {
        assert(state@ =~= apply_pixel(old(state)@, u));
    }
}

/// What the `send_frame` reducer does to the database, given the snapshot
/// row it found: the new snapshot row (id `0`) is the old state, or a blank
/// screen when there was none, with the updates applied in order; a frame
/// row holding the packed delta is returned to be broadcast when there was
/// at least one update.
pub fn send_frame(snapshot: Option<Snapshot>, updates: &[PixelUpdate]) -> (r: (
    Snapshot,
    Option<Frame>,
))
    ensures
        r.0.id == 0,
        r.0.state@ == apply_pixels(
            match snapshot {
                Some(s) => s.state@,
                None => blank_snapshot(),
            },
            updates@,
        ),
        snapshot is None ==> r.0.state@.len() == SNAPSHOT_BYTES,
        snapshot is None ==> forall|j: int|
            0 <= j < SNAPSHOT_BYTES && (forall|k: int|
                0 <= k < updates@.len() ==> (#[trigger] updates@[k]).offset != j / 4) ==> #[trigger] r.0.state@[j]
                == 0,
        r.1 is Some <==> updates@.len() > 0,
        r.1 matches Some(f) ==> f.id == 0 && f.data@ == packed_delta(updates@),
{
    let mut state = match snapshot {
        Some(s) => s.state,
        None => {
            let v = vec![0u8; SNAPSHOT_BYTES];
            assert(v@ =~= blank_snapshot());
            v
        },
    };
    let ghost init = state@;
    let mut delta: Vec<u8> = Vec::new();
    let mut i: usize = 0;
    while i < updates.len()
        invariant
            i <= updates@.len(),
            state@ == apply_pixels(init, updates@.take(i as int)),
            delta@ == packed_delta(updates@.take(i as int)),
        decreases updates@.len() - i,
    {
        let u = updates[i];
        let off = u.offset;
        delta.push(((off / 0x1_0000) % 0x100) as u8);
        delta.push(((off / 0x100) % 0x100) as u8);
        delta.push((off % 0x100) as u8);
        delta.push(u.r);
        delta.push(u.g);
        delta.push(u.b);
        delta.push(if u.checked { 1 } else { 0 });
        apply_pixel_update(&mut state, u);
        proof {
            lemma_apply_pixels_step(init, updates@, i as int);
            assert(updates@.take(i + 1).drop_last() =~= updates@.take(i as int));
        }
        i = i + 1;
    }
    assert(updates@.take(updates@.len() as int) =~= updates@);
    proof {
        if snapshot is None {
            assert(init == blank_snapshot());
            assert forall|j: int|
                0 <= j < SNAPSHOT_BYTES && (forall|k: int|
                    0 <= k < updates@.len() ==> (#[trigger] updates@[k]).offset != j / 4) implies #[trigger] state@[j]
                == 0 by {
                lemma_fresh_snapshot_untouched_zero(updates@, j);
            }
            lemma_apply_pixels_len(init, updates@);
        }
    }
    let snap = Snapshot { id: 0, state };
    if delta.len() == 0 {
        proof {
            if updates@.len() > 0 {
                lemma_packed_delta_len(updates@);
            }
        }
        (snap, None)
    } else {
        (snap, Some(Frame { id: 0, data: delta }))
    }
}

/// The update that delta entry `i` of `d` stands for.
pub open spec fn delta_entry(d: Seq<u8>, i: int) -> PixelUpdate {
    PixelUpdate {
        offset: (d[7 * i] as int * 0x1_0000 + d[7 * i + 1] as int * 0x100 + d[7 * i + 2] as int) as u32,
        r: d[7 * i + 3],
        g: d[7 * i + 4],
        b: d[7 * i + 5],
        checked: d[7 * i + 6] != 0,
    }
}

/// The updates that a packed delta stands for: one per complete 7-byte entry.
pub open spec fn delta_entries(d: Seq<u8>) -> Seq<PixelUpdate> {
    Seq::new(d.len() / 7, |i: int| delta_entry(d, i))
}

/// Applies a packed frame delta to the RGBA pixel buffer: every complete
/// 7-byte entry, in order; a trailing partial entry is ignored.
pub fn apply_frame_delta(buf: &mut Vec<u8>, data: &[u8])
    ensures
        final(buf)@ == apply_pixels(old(buf)@, delta_entries(data@)),
{
    let count = data.len() / 7;
    let ghost init = buf@;
    let ghost ups = delta_entries(data@);
    let mut i: usize = 0;
    while i < count
        invariant
            count == data@.len() / 7,
            ups == delta_entries(data@),
            i <= count,
            buf@ == apply_pixels(init, ups.take(i as int)),
        decreases count - i,
    {
        proof {
            assert(7 * i + 7 <= data@.len()) by (nonlinear_arith)
                requires
                    i < count,
                    count == data@.len() / 7,
            ;
            assert(data@.len() == data.len());
        }
        let off = i * 7;
        let pixel_offset: u32 = (data[off] as u32) * 0x1_0000 + (data[off + 1] as u32) * 0x100
            + (data[off + 2] as u32);
        let u = PixelUpdate {
            offset: pixel_offset,
            r: data[off + 3],
            g: data[off + 4],
            b: data[off + 5],
            checked: data[off + 6] != 0,
        };
        assert(u == ups[i as int]);
        apply_pixel_update(buf, u);
        proof {
            lemma_apply_pixels_step(init, ups, i as int);
        }
        i = i + 1;
    }
    assert(ups.take(count as int) =~= ups);
}

/// Unpacking a delta gives back the updates it was packed from, when every
/// offset fits in the 24 bits that an entry holds.
pub proof fn lemma_delta_roundtrip(ups: Seq<PixelUpdate>)
    requires
        forall|i: int| 0 <= i < ups.len() ==> #[trigger] ups[i].offset < 0x100_0000,
    ensures
        delta_entries(packed_delta(ups)) == ups,
    decreases ups.len(),
{
    lemma_packed_delta_len(ups);
    if ups.len() > 0 {
        let init = ups.drop_last();
        lemma_delta_roundtrip(init);
        lemma_packed_delta_len(init);
        let d = packed_delta(ups);
        let n = ups.len() - 1;
        let u = ups.last();
        assert(d == packed_delta(init) + packed_pixel(u));
        assert forall|i: int| 0 <= i < ups.len() implies #[trigger] delta_entry(d, i) == ups[i] by {
            if i < n {
                assert(delta_entry(d, i) == delta_entry(packed_delta(init), i));
                assert(delta_entries(packed_delta(init))[i] == init[i]);
            } else {
                let o = u.offset as int;
                assert(o == (o / 0x1_0000 % 0x100) * 0x1_0000 + (o / 0x100 % 0x100) * 0x100 + o
                    % 0x100) by (nonlinear_arith)
                    requires
                        0 <= o < 0x100_0000,
                ;
                assert(d[7 * i] as int == o / 0x1_0000 % 0x100);
                assert(d[7 * i + 1] as int == o / 0x100 % 0x100);
                assert(d[7 * i + 2] as int == o % 0x100);
                assert(d[7 * i + 6] != 0 <==> u.checked);
            }
        }
        assert(delta_entries(d) =~= ups);
    }
}

/// A spectator that applies the broadcast delta of `send_frame` to the
/// screen it holds ends with the same screen as the snapshot row, when
/// every offset fits in 24 bits.
pub proof fn lemma_spectator_matches_snapshot(screen: Seq<u8>, ups: Seq<PixelUpdate>)
    requires
        forall|i: int| 0 <= i < ups.len() ==> #[trigger] ups[i].offset < 0x100_0000,
    ensures
        apply_pixels(screen, delta_entries(packed_delta(ups))) == apply_pixels(screen, ups),
{
    lemma_delta_roundtrip(ups);
}

/// Copies a full snapshot into the pixel buffer: as many bytes as both hold;
/// the rest of the buffer is kept.
pub fn apply_snapshot(buf: &mut Vec<u8>, data: &[u8])
    ensures
        final(buf)@.len() == old(buf)@.len(),
        forall|i: int|
            0 <= i < old(buf)@.len() ==> #[trigger] final(buf)@[i] == if i < data@.len() {
                data@[i]
            } else {
                old(buf)@[i]
            },
{
    let len = if data.len() < buf.len() { data.len() } else { buf.len() };
    let mut i: usize = 0;
    while i < len
        invariant
            len <= data@.len(),
            len <= old(buf)@.len(),
            len == data@.len() || len == old(buf)@.len(),
            i <= len,
            buf@.len() == old(buf)@.len(),
            forall|j: int|
                0 <= j < old(buf)@.len() ==> #[trigger] buf@[j] == if j < i {
                    data@[j]
                } else {
                    old(buf)@[j]
                },
        decreases len - i,
    {
        buf.set(i, data[i]);
        i = i + 1;
    }
}

/// The reducer arguments of `send_frame`: a little-endian `u32` count (`total`
/// modulo `2^32`), then per update its offset as a little-endian `u32`,
/// `r, g, b`, and `1` or `0` for checked.
pub open spec fn send_frame_args(updates: Seq<(u32, u8, u8, u8, bool)>, total: nat) -> Seq<u8>
    decreases updates.len(),
{
    if updates.len() == 0 {
        u32_le_bytes((total % 0x1_0000_0000) as u32)
    } else {
        let u = updates.last();
        send_frame_args(updates.drop_last(), total) + u32_le_bytes(u.0) + seq![
            u.1,
            u.2,
            u.3,
            if u.4 { 1u8 } else { 0u8 },
        ]
    }
}

/// Encodes the reducer arguments of `send_frame` (the BSATN form of a list of pixel updates).
pub fn encode_send_frame_args(updates: &[(u32, u8, u8, u8, bool)]) -> (r: Vec<u8>)
    ensures
        r@ == send_frame_args(updates@, updates@.len()),
        r@.len() == 4 + 8 * updates@.len(),
{
    let mut buf: Vec<u8> = Vec::new();
    let count: u32 = ((updates.len() as u64) % 0x1_0000_0000) as u32;
    push_u32_le(&mut buf, count);
    let mut i: usize = 0;
    while i < updates.len()
        invariant
            i <= updates@.len(),
            buf@ == send_frame_args(updates@.take(i as int), updates@.len()),
            buf@.len() == 4 + 8 * i,
        decreases updates@.len() - i,
    {
        let (offset, r, g, b, checked) = updates[i];
        push_u32_le(&mut buf, offset);
        buf.push(r);
        buf.push(g);
        buf.push(b);
        buf.push(if checked { 1 } else { 0 });
        proof {
            assert(updates@.take(i + 1).drop_last() =~= updates@.take(i as int));
            assert(buf@ =~= send_frame_args(updates@.take(i + 1), updates@.len()));
        }
        i = i + 1;
    }
    assert(updates@.take(updates@.len() as int) =~= updates@);
    buf
}

/// Ids of the frame rows that `cleanup_frames(max_id)` deletes: those not after `max_id`, in order.
pub fn frame_ids_to_delete(ids: &[u64], max_id: u64) -> (r: Vec<u64>)
    ensures
        r@ == ids@.filter(|id: u64| id <= max_id),
{
    let mut out: Vec<u64> = Vec::new();
    let mut i: usize = 0;
    while i < ids.len()
        invariant
            i <= ids@.len(),
            out@ == ids@.take(i as int).filter(|id: u64| id <= max_id),
        decreases ids@.len() - i,
    {
        proof {
            reveal_with_fuel(Seq::filter, 1);
            assert(ids@.take(i + 1).drop_last() =~= ids@.take(i as int));
        }
        if ids[i] <= max_id {
            out.push(ids[i]);
        }
        i = i + 1;
    }
    assert(ids@.take(ids@.len() as int) =~= ids@);
    out
}

} // verus!
