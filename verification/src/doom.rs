//! Doom frames captured on the main thread: drawing them into the pixel
//! buffer, packing them for the worker, and the worker's reading of a
//! packed frame into checkbox cell updates.

use vstd::prelude::*;
use crate::frames::{apply_pixels, PixelUpdate};
use crate::le::{le_u32, push_u32_le, read_u32_le, u32_le_bytes};

verus! {

/// Tag of a Doom frame sent from the main thread to the worker.
pub const TAG_DOOM_FRAME: u8 = 4;

/// Bytes before the pixel payload in a Doom frame that the worker reads:
/// tag, width, base x, base y (each `u32`), chunk id (`i64`).
pub const DOOM_FRAME_HEADER: usize = 21;

/// The pixel updates of a captured frame: pixel `i` takes colour bytes
/// `4i..4i + 4` of `colors`, for as many pixels as both lists hold.
pub open spec fn captured_pixels(indices: Seq<u32>, colors: Seq<u8>) -> Seq<PixelUpdate> {
    let n = if indices.len() <= colors.len() / 4 { indices.len() } else { colors.len() / 4 };
    Seq::new(
        n,
        |i: int|
            PixelUpdate {
                offset: indices[i],
                r: colors[4 * i],
                g: colors[4 * i + 1],
                b: colors[4 * i + 2],
                checked: colors[4 * i + 3] != 0,
            },
    )
}

/// Draws a captured frame into the RGBA pixel buffer, pixel by pixel in
/// order; pixels past the buffer are dropped.
pub fn apply_doom_pixels(buf: &mut Vec<u8>, indices: &[u32], colors: &[u8])
    ensures
        final(buf)@ == apply_pixels(old(buf)@, captured_pixels(indices@, colors@)),
{
    let ghost init = buf@;
    let ghost ups = captured_pixels(indices@, colors@);
    let n: usize = if indices.len() <= colors.len() / 4 { indices.len() } else { colors.len() / 4 };
    let mut i: usize = 0;
    while i < n
        invariant
            n == ups.len(),
            ups == captured_pixels(indices@, colors@),
            n <= indices@.len(),
            n <= colors@.len() / 4,
            i <= n,
            buf@ == apply_pixels(init, ups.take(i as int)),
        decreases n - i,
    {
        proof {
            assert(4 * i + 4 <= colors@.len()) by (nonlinear_arith)
                requires
                    i < n,
                    n <= colors@.len() / 4,
            ;
            assert(colors@.len() == colors.len());
        }
        let c = i * 4;
        let u = PixelUpdate {
            offset: indices[i],
            r: colors[c],
            g: colors[c + 1],
            b: colors[c + 2],
            checked: colors[c + 3] != 0,
        };
        assert(u == ups[i as int]);
        let ghost before = buf@;
        let idx: u64 = (u.offset as u64) * 4;
        if idx + 3 < buf.len() as u64 {
            let k = idx as usize;
            buf.set(k, u.r);
            buf.set(k + 1, u.g);
            buf.set(k + 2, u.b);
            buf.set(k + 3, if u.checked { 0xFF } else { 0x00 });
        }
        proof {
            assert(buf@ =~= crate::frames::apply_pixel(before, u));
            assert(ups.take(i + 1).drop_last() =~= ups.take(i as int));
        }
        i = i + 1;
    }
    assert(ups.take(n as int) =~= ups);
}

/// The little-endian bytes of each number in `s`, in order.
pub open spec fn u32_list_le_bytes(s: Seq<u32>) -> Seq<u8>
    decreases s.len(),
{
    if s.len() == 0 {
        Seq::empty()
    } else {
        u32_list_le_bytes(s.drop_last()) + u32_le_bytes(s.last())
    }
}

/// The message that carries a captured frame to the worker: tag `4`, the
/// width as a little-endian `u32`, every pixel index as a little-endian
/// `u32`, then the colour bytes.
pub fn encode_doom_frame(width: u32, indices: &[u32], colors: &[u8]) -> (r: Vec<u8>)
    ensures
        r@ == seq![TAG_DOOM_FRAME] + u32_le_bytes(width) + u32_list_le_bytes(indices@) + colors@,
{
    let mut buf: Vec<u8> = Vec::new();
    buf.push(TAG_DOOM_FRAME);
    push_u32_le(&mut buf, width);
    let ghost head = buf@;
    let mut i: usize = 0;
    while i < indices.len()
        invariant
            i <= indices@.len(),
            head == seq![TAG_DOOM_FRAME] + u32_le_bytes(width),
            buf@ == head + u32_list_le_bytes(indices@.take(i as int)),
        decreases indices@.len() - i,
    {
        push_u32_le(&mut buf, indices[i]);
        proof {
            assert(indices@.take(i + 1).drop_last() =~= indices@.take(i as int));
            assert(buf@ =~= head + u32_list_le_bytes(indices@.take(i + 1)));
        }
        i = i + 1;
    }
    assert(indices@.take(indices@.len() as int) =~= indices@);
    let ghost mid = buf@;
    let mut j: usize = 0;
    while j < colors.len()
        invariant
            j <= colors@.len(),
            buf@ == mid + colors@.take(j as int),
        decreases colors@.len() - j,
    {
        buf.push(colors[j]);
        j = j + 1;
        assert(buf@ =~= mid + colors@.take(j as int));
    }
    assert(colors@.take(colors@.len() as int) =~= colors@);
    buf
}

/// Number of pixels in a Doom frame message that the worker reads.
pub open spec fn doom_pixel_count(b: Seq<u8>) -> int {
    (b.len() - DOOM_FRAME_HEADER) / 8
}

/// Pixel index `i` of a Doom frame message.
pub open spec fn doom_pixel_index(b: Seq<u8>, i: int) -> int {
    le_u32(b, DOOM_FRAME_HEADER + 4 * i)
}

/// Chunk cell of pixel `i`: the pixel index, split into row and column by
/// the frame width, placed at the frame's base position in a chunk.
pub open spec fn doom_cell_offset(b: Seq<u8>, i: int) -> int {
    let width = le_u32(b, 1);
    let base_x = le_u32(b, 5);
    let base_y = le_u32(b, 9);
    let p = doom_pixel_index(b, i);
    (base_y + p / width) * 1000 + (base_x + p % width)
}

/// Whether `b` is a Doom frame message with a complete header.
pub open spec fn is_doom_frame(b: Seq<u8>) -> bool {
    b.len() >= DOOM_FRAME_HEADER && b[0] == TAG_DOOM_FRAME
}

/// Whether every cell position of a Doom frame message can be computed in
/// 32 bits: the width is not zero when there are pixels, and no sum or
/// product overflows.
pub open spec fn doom_frame_fits(b: Seq<u8>) -> bool {
    let width = le_u32(b, 1);
    let base_x = le_u32(b, 5);
    let base_y = le_u32(b, 9);
    is_doom_frame(b) ==> (doom_pixel_count(b) > 0 ==> width != 0) && forall|i: int|
        0 <= i < doom_pixel_count(b) ==> {
            let p = #[trigger] doom_pixel_index(b, i);
            &&& base_y + p / width <= u32::MAX
            &&& (base_y + p / width) * 1000 <= u32::MAX
            &&& base_x + p % width <= u32::MAX
            &&& doom_cell_offset(b, i) <= u32::MAX
        }
}

/// The cell update that pixel `i` of a Doom frame message stands for:
/// `(cell offset, r, g, b, checked)`.
pub open spec fn doom_cell_update(b: Seq<u8>, i: int) -> (u32, u8, u8, u8, bool) {
    let c = DOOM_FRAME_HEADER + 4 * doom_pixel_count(b) + 4 * i;
    (doom_cell_offset(b, i) as u32, b[c], b[c + 1], b[c + 2], b[c + 3] != 0)
}

/// Reads the header fields of a Doom frame message and the cell position of pixel `i`, when it fits.
fn doom_cell_of(bytes: &[u8], i: usize, count: usize) -> (r: Option<u32>)
    requires
        is_doom_frame(bytes@),
        count == doom_pixel_count(bytes@),
        i < count,
    ensures
        match r {
            Some(c) => {
                let p = doom_pixel_index(bytes@, i as int);
                let w = le_u32(bytes@, 1);
                &&& w != 0
                &&& le_u32(bytes@, 9) + p / w <= u32::MAX
                &&& (le_u32(bytes@, 9) + p / w) * 1000 <= u32::MAX
                &&& le_u32(bytes@, 5) + p % w <= u32::MAX
                &&& doom_cell_offset(bytes@, i as int) <= u32::MAX
                &&& c as int == doom_cell_offset(bytes@, i as int)
            },
            None => !doom_frame_fits(bytes@),
        },
{
    let width = read_u32_le(bytes, 1);
    let base_x = read_u32_le(bytes, 5);
    let base_y = read_u32_le(bytes, 9);
    if width == 0 {
        return None;
    }
    proof {
        assert(DOOM_FRAME_HEADER + 4 * i + 4 <= bytes@.len()) by (nonlinear_arith)
            requires
                i < count,
                count == (bytes@.len() - DOOM_FRAME_HEADER) / 8,
                bytes@.len() >= DOOM_FRAME_HEADER,
        ;
        assert(bytes@.len() == bytes.len());
    }
    let p = read_u32_le(bytes, 21 + 4 * i);
    assert(p as int == doom_pixel_index(bytes@, i as int));
    let x = p % width;
    let y = p / width;
    let row = match base_y.checked_add(y) {
        Some(v) => v,
        None => return None,
    };
    let row_start = match row.checked_mul(1000) {
        Some(v) => v,
        None => return None,
    };
    let col = match base_x.checked_add(x) {
        Some(v) => v,
        None => return None,
    };
    match row_start.checked_add(col) {
        Some(v) => Some(v),
        None => None,
    }
}

/// Whether the cell positions of a Doom frame message can all be computed in 32 bits.
pub fn check_doom_frame(bytes: &[u8]) -> (r: bool)
    ensures
        r == doom_frame_fits(bytes@),
{
    if !(bytes.len() >= DOOM_FRAME_HEADER && bytes[0] == TAG_DOOM_FRAME) {
        return true;
    }
    let count = (bytes.len() - DOOM_FRAME_HEADER) / 8;
    let mut i: usize = 0;
    while i < count
        invariant
            is_doom_frame(bytes@),
            count == doom_pixel_count(bytes@),
            i <= count,
            forall|j: int|
                0 <= j < i ==> {
                    let p = #[trigger] doom_pixel_index(bytes@, j);
                    let w = le_u32(bytes@, 1);
                    &&& w != 0
                    &&& le_u32(bytes@, 9) + p / w <= u32::MAX
                    &&& (le_u32(bytes@, 9) + p / w) * 1000 <= u32::MAX
                    &&& le_u32(bytes@, 5) + p % w <= u32::MAX
                    &&& doom_cell_offset(bytes@, j) <= u32::MAX
                },
        decreases count - i,
    {
        match doom_cell_of(bytes, i, count) {
            Some(_) => {},
            None => return false,
        }
        i = i + 1;
    }
    proof {
        if count > 0 {
            let p = doom_pixel_index(bytes@, 0);
            assert(le_u32(bytes@, 1) != 0);
        }
    }
    true
}

/// Reads a Doom frame message on the worker into the cell updates it
/// queues: `None` unless the message is a complete Doom frame; otherwise
/// one update per complete 8-byte pixel entry.
pub fn decode_doom_frame(bytes: &[u8]) -> (r: Option<Vec<(u32, u8, u8, u8, bool)>>)
    requires
        doom_frame_fits(bytes@),
    ensures
        r is Some <==> is_doom_frame(bytes@),
        r matches Some(v) ==> v@ == Seq::new(
            doom_pixel_count(bytes@) as nat,
            |i: int| doom_cell_update(bytes@, i),
        ),
{
    if bytes.len() < DOOM_FRAME_HEADER || bytes[0] != TAG_DOOM_FRAME {
        return None;
    }
    let count = (bytes.len() - DOOM_FRAME_HEADER) / 8;
    let ghost want = Seq::new(count as nat, |i: int| doom_cell_update(bytes@, i));
    let mut out: Vec<(u32, u8, u8, u8, bool)> = Vec::with_capacity(count);
    let mut i: usize = 0;
    while i < count
        invariant
            is_doom_frame(bytes@),
            doom_frame_fits(bytes@),
            count == doom_pixel_count(bytes@),
            want == Seq::new(count as nat, |i: int| doom_cell_update(bytes@, i)),
            i <= count,
            out@ == want.take(i as int),
        decreases count - i,
    {
        let cell = match doom_cell_of(bytes, i, count) {
            Some(c) => c,
            None => {
                return None;
            },
        };
        proof {
            assert(DOOM_FRAME_HEADER + 4 * count + 4 * i + 4 <= bytes@.len()) by (nonlinear_arith)
                requires
                    i < count,
                    count == (bytes@.len() - DOOM_FRAME_HEADER) / 8,
                    bytes@.len() >= DOOM_FRAME_HEADER,
            ;
            assert(bytes@.len() == bytes.len());
        }
        let c = DOOM_FRAME_HEADER + 4 * count + 4 * i;
        out.push((cell, bytes[c], bytes[c + 1], bytes[c + 2], bytes[c + 3] != 0));
        proof {
            assert(out@ =~= want.take(i + 1));
        }
        i = i + 1;
    }
    assert(want.take(count as int) =~= want);
    Some(out)
}

} // verus!
