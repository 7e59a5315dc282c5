//! Coordinates on the infinite checkbox grid.
//!
//! The grid is cut into square chunks of `CHUNK_SIZE` × `CHUNK_SIZE` cells.
//! A global cell `(col, row)` lies in chunk `(floor(col / CHUNK_SIZE),
//! floor(row / CHUNK_SIZE))` at local position `(col mod CHUNK_SIZE,
//! row mod CHUNK_SIZE)`.  A chunk is named by a single `i64` whose high 32
//! bits hold the chunk column and whose low 32 bits hold the chunk row.

use vstd::prelude::*;

verus! {

/// Number of cells along one side of a chunk.
pub const CHUNK_SIZE: u32 = 1000;

/// Number of cells in a chunk.
pub const CHECKBOXES_PER_CHUNK: usize = 1000000;

/// Number of RGBA bytes holding one chunk.
pub const CHUNK_DATA_SIZE: usize = 4000000;

/// `2^32`, the weight of the chunk column inside a chunk id.
pub open spec fn two_32() -> int {
    0x1_0000_0000
}

/// Floor division by the chunk size.
pub open spec fn chunk_of(c: int) -> int {
    c / (CHUNK_SIZE as int)
}

/// Position of a global coordinate inside its chunk, in `0..CHUNK_SIZE`.
pub open spec fn local_of(c: int) -> int {
    c % (CHUNK_SIZE as int)
}

/// The id of chunk `(x, y)`: `x` in the high half, the 32 bits of `y` in the low half.
pub open spec fn spec_chunk_id(x: int, y: int) -> int {
    x * two_32() + (if y >= 0 { y } else { y + two_32() })
}

/// The chunk column that an id names (arithmetic shift right by 32).
pub open spec fn id_high(id: int) -> int {
    id / two_32()
}

/// The chunk row that an id names (the low 32 bits, read as a signed number).
pub open spec fn id_low(id: int) -> int {
    let lo = id % two_32();
    if lo < 0x8000_0000 { lo } else { lo - two_32() }
}

/// Floor division of an `i32` by a positive divisor that fits in an `i32`.
fn floor_div_i32(c: i32, d: i32) -> (q: i32)
    requires
        d > 0,
    ensures
        q as int == c as int / d as int,
{
    if c >= 0 {
        c / d
    } else {
        let n: i32 = -(c + 1);
        let q: i32 = n / d;
        proof {
            let ni = n as int;
            let di = d as int;
            let qi = q as int;
            assert(qi == ni / di);
            vstd::arithmetic::div_mod::lemma_fundamental_div_mod(ni, di);
            assert(0 <= ni % di < di);
            // c = -(n + 1) = -(q*d + r + 1) = (-q - 1) * d + (d - r - 1)
            let r = ni % di;
            assert(c as int == (-qi - 1) * di + (di - r - 1)) by (nonlinear_arith)
                requires
                    ni == di * qi + r,
                    c as int == -(ni + 1),
            ;
            vstd::arithmetic::div_mod::lemma_fundamental_div_mod_converse(
                c as int,
                di,
                -qi - 1,
                di - r - 1,
            );
        }
        -q - 1
    }
}

/// Chunk that holds the global cell `(col, row)`; floor division, so that
/// negative coordinates fall into negative chunks.
pub fn grid_to_chunk_coords(col: i32, row: i32) -> (r: (i32, i32))
    ensures
        r.0 as int == chunk_of(col as int),
        r.1 as int == chunk_of(row as int),
{
    (floor_div_i32(col, 1000), floor_div_i32(row, 1000))
}

/// Position of the global cell `(col, row)` inside its chunk, always in `0..CHUNK_SIZE`.
pub fn grid_to_local(col: i32, row: i32) -> (r: (u32, u32))
    ensures
        r.0 as int == local_of(col as int),
        r.1 as int == local_of(row as int),
        r.0 < CHUNK_SIZE,
        r.1 < CHUNK_SIZE,
{
    let cx = floor_div_i32(col, 1000);
    let cy = floor_div_i32(row, 1000);
    proof {
        vstd::arithmetic::div_mod::lemma_fundamental_div_mod(col as int, 1000);
        vstd::arithmetic::div_mod::lemma_fundamental_div_mod(row as int, 1000);
    }
    let lx = (col as i64 - (cx as i64) * 1000) as u32;
    let ly = (row as i64 - (cy as i64) * 1000) as u32;
    (lx, ly)
}

/// Packs chunk coordinates into one id: `x` in the high 32 bits, `y` (as 32 raw bits) in the low 32.
pub fn chunk_coords_to_id(chunk_x: i32, chunk_y: i32) -> (id: i64)
    ensures
        id as int == spec_chunk_id(chunk_x as int, chunk_y as int),
{
    let low: i64 = if chunk_y >= 0 { chunk_y as i64 } else { chunk_y as i64 + 0x1_0000_0000 };
    (chunk_x as i64) * 0x1_0000_0000 + low
}

/// Unpacks a chunk id into the chunk coordinates it names.
pub fn chunk_id_to_coords(id: i64) -> (r: (i32, i32))
    ensures
        r.0 as int == id_high(id as int),
        r.1 as int == id_low(id as int),
{
    let hi: i64 = if id >= 0 {
        id / 0x1_0000_0000
    } else {
        let n: i64 = -(id + 1);
        proof {
            vstd::arithmetic::div_mod::lemma_fundamental_div_mod(n as int, two_32());
            vstd::arithmetic::div_mod::lemma_fundamental_div_mod(id as int, two_32());
        }
        -(n / 0x1_0000_0000) - 1
    };
    proof {
        vstd::arithmetic::div_mod::lemma_fundamental_div_mod(id as int, two_32());
        if id < 0 {
            let n = -(id + 1);
            vstd::arithmetic::div_mod::lemma_fundamental_div_mod(n as int, two_32());
            let q = n / two_32();
            let r = n % two_32();
            assert(id as int == (-q - 1) * two_32() + (two_32() - r - 1));
            vstd::arithmetic::div_mod::lemma_fundamental_div_mod_converse(
                id as int,
                two_32(),
                -q - 1,
                two_32() - r - 1,
            );
        }
    }
    let lo: i64 = id - hi * 0x1_0000_0000;
    let y: i64 = if lo < 0x8000_0000 { lo } else { lo - 0x1_0000_0000 };
    (hi as i32, y as i32)
}

/// Unpacking an id gives back the chunk coordinates it was packed from.
pub proof fn lemma_chunk_id_roundtrip(x: i32, y: i32)
    ensures
        id_high(spec_chunk_id(x as int, y as int)) == x as int,
        id_low(spec_chunk_id(x as int, y as int)) == y as int,
{
    let low = if y >= 0 { y as int } else { y as int + two_32() };
    vstd::arithmetic::div_mod::lemma_fundamental_div_mod_converse(
        spec_chunk_id(x as int, y as int),
        two_32(),
        x as int,
        low,
    );
}

/// Every `i64` is the id of exactly the chunk that it unpacks to.
pub proof fn lemma_chunk_id_surjective(id: i64)
    ensures
        spec_chunk_id(id_high(id as int), id_low(id as int)) == id as int,
{
    vstd::arithmetic::div_mod::lemma_fundamental_div_mod(id as int, two_32());
}

/// A global coordinate is its chunk's origin plus its local position.
pub proof fn lemma_grid_decomposition(c: int)
    ensures
        c == chunk_of(c) * (CHUNK_SIZE as int) + local_of(c),
        0 <= local_of(c) < CHUNK_SIZE as int,
{
    vstd::arithmetic::div_mod::lemma_fundamental_div_mod(c, CHUNK_SIZE as int);
}

/// The chunks to load for a view of global cells `min_col..=max_col` by
/// `min_row..=max_row`: the chunks of its corners, widened by one chunk on
/// every side; `(min_x, min_y, max_x, max_y)`.
pub fn chunk_range_around(min_col: i32, min_row: i32, max_col: i32, max_row: i32) -> (r: (
    i32,
    i32,
    i32,
    i32,
))
    ensures
        r.0 == chunk_of(min_col as int) - 1,
        r.1 == chunk_of(min_row as int) - 1,
        r.2 == chunk_of(max_col as int) + 1,
        r.3 == chunk_of(max_row as int) + 1,
{
    let (chunk_min_x, chunk_min_y) = grid_to_chunk_coords(min_col, min_row);
    let (chunk_max_x, chunk_max_y) = grid_to_chunk_coords(max_col, max_row);
    proof {
        lemma_grid_decomposition(min_col as int);
        lemma_grid_decomposition(min_row as int);
        lemma_grid_decomposition(max_col as int);
        lemma_grid_decomposition(max_row as int);
    }
    (chunk_min_x - 1, chunk_min_y - 1, chunk_max_x + 1, chunk_max_y + 1)
}

/// The chunks of row `cy` from `min_x` to `max_x`, left to right.
pub open spec fn chunk_row(min_x: int, max_x: int, cy: int) -> Seq<(i32, i32)> {
    Seq::new(
        (if max_x >= min_x { max_x - min_x + 1 } else { 0 }) as nat,
        |k: int| ((min_x + k) as i32, cy as i32),
    )
}

/// The chunks of the first `n` rows from `min_y`, row by row.
pub open spec fn chunk_rows(min_x: int, max_x: int, min_y: int, n: int) -> Seq<(i32, i32)>
    decreases n,
{
    if n <= 0 {
        Seq::empty()
    } else {
        chunk_rows(min_x, max_x, min_y, n - 1) + chunk_row(min_x, max_x, min_y + n - 1)
    }
}

/// The chunks of `n` rows of the range `min_x..=max_x` from row `min_y`:
/// `w = max_x - min_x + 1` per row, so `n * w` in all, and entry
/// `dy * w + dx` is chunk `(min_x + dx, min_y + dy)`.
pub proof fn lemma_chunk_rows_layout(min_x: int, max_x: int, min_y: int, n: int)
    requires
        i32::MIN <= min_x <= max_x <= i32::MAX,
        0 <= n,
        i32::MIN <= min_y,
        min_y + n - 1 <= i32::MAX,
    ensures
        chunk_rows(min_x, max_x, min_y, n).len() == n * (max_x - min_x + 1),
        forall|dy: int, dx: int|
            0 <= dy < n && 0 <= dx <= max_x - min_x ==> #[trigger] chunk_rows(min_x, max_x, min_y, n)[dy
                * (max_x - min_x + 1) + dx] == ((min_x + dx) as i32, (min_y + dy) as i32),
    decreases n,
{
    let w = max_x - min_x + 1;
    if n > 0 {
        lemma_chunk_rows_layout(min_x, max_x, min_y, n - 1);
        let a = chunk_rows(min_x, max_x, min_y, n - 1);
        let row = chunk_row(min_x, max_x, min_y + n - 1);
        assert(chunk_rows(min_x, max_x, min_y, n) == a + row);
        assert((n - 1) * w + w == n * w) by (nonlinear_arith);
        assert forall|dy: int, dx: int| 0 <= dy < n && 0 <= dx <= max_x - min_x implies #[trigger] (a + row)[dy
            * w + dx] == ((min_x + dx) as i32, (min_y + dy) as i32) by {
            if dy < n - 1 {
                assert(dy * w + dx < (n - 1) * w) by (nonlinear_arith)
                    requires
                        0 <= dy < n - 1,
                        0 <= dx < w,
                ;
                assert(0 <= dy * w) by (nonlinear_arith)
                    requires
                        0 <= dy,
                        0 < w,
                ;
                assert((a + row)[dy * w + dx] == a[dy * w + dx]);
            } else {
                assert(dy * w + dx - (n - 1) * w == dx) by (nonlinear_arith)
                    requires
                        dy == n - 1,
                ;
                assert(0 <= (n - 1) * w) by (nonlinear_arith)
                    requires
                        1 <= n,
                        0 < w,
                ;
                assert((a + row)[dy * w + dx] == row[dx]);
            }
        }
    }
}

/// Every chunk of the range `min_x..=max_x` by `min_y..=max_y`, row by row,
/// each row left to right; empty when the range is.
pub fn chunks_in_range(min_x: i32, min_y: i32, max_x: i32, max_y: i32) -> (r: Vec<(i32, i32)>)
    ensures
        r@ == chunk_rows(
            min_x as int,
            max_x as int,
            min_y as int,
            if max_y >= min_y { max_y - min_y + 1 } else { 0 },
        ),
        min_x <= max_x && min_y <= max_y ==> r@.len() == (max_x - min_x + 1) * (max_y - min_y + 1),
        min_x <= max_x && min_y <= max_y ==> forall|cx: i32, cy: i32|
            min_x <= cx <= max_x && min_y <= cy <= max_y ==> #[trigger] r@.contains((cx, cy)),
{
    let mut chunks: Vec<(i32, i32)> = Vec::new();
    let mut cy: i64 = min_y as i64;
    while cy <= max_y as i64
        invariant
            min_y <= cy <= max_y as int + 1 || (cy == min_y && max_y < min_y),
            chunks@ == chunk_rows(min_x as int, max_x as int, min_y as int, cy - min_y),
        decreases max_y as int + 1 - cy,
    {
        let ghost before = chunks@;
        let mut cx: i64 = min_x as i64;
        while cx <= max_x as i64
            invariant
                min_y <= cy <= max_y,
                min_x <= cx <= max_x as int + 1 || (cx == min_x && max_x < min_x),
                chunks@ == before + chunk_row(min_x as int, max_x as int, cy as int).take(cx - min_x),
            decreases max_x as int + 1 - cx,
        {
            chunks.push((cx as i32, cy as i32));
            proof {
                let row = chunk_row(min_x as int, max_x as int, cy as int);
                assert(row.take(cx + 1 - min_x) =~= row.take(cx - min_x).push((cx as i32, cy as i32)));
            }
            cx = cx + 1;
        }
        proof {
            let row = chunk_row(min_x as int, max_x as int, cy as int);
            if max_x >= min_x {
                assert(row.take(cx - min_x) =~= row);
            } else {
                assert(row.take(cx - min_x) =~= row);
            }
            assert(chunk_rows(min_x as int, max_x as int, min_y as int, cy + 1 - min_y) == chunk_rows(
                min_x as int,
                max_x as int,
                min_y as int,
                cy - min_y,
            ) + row);
        }
        cy = cy + 1;
    }
    proof {
        if min_x <= max_x && min_y <= max_y {
            let w = max_x - min_x + 1;
            let n = max_y - min_y + 1;
            lemma_chunk_rows_layout(min_x as int, max_x as int, min_y as int, n);
            assert forall|cx: i32, cy: i32| min_x <= cx <= max_x && min_y <= cy <= max_y implies #[trigger] chunks@.contains((cx, cy)) by {
                let dy = cy - min_y;
                let dx = cx - min_x;
                assert(0 <= dy * w + dx < n * w) by (nonlinear_arith)
                    requires
                        0 <= dy < n,
                        0 <= dx < w,
                ;
                assert(chunks@[dy * w + dx] == ((min_x + dx) as i32, (min_y + dy) as i32));
            }
        }
    }
    chunks
}

} // verus!
