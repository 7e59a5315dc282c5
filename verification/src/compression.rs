//! Run-length and palette decoding of stored chunks.
//!
//! Palette bytes: `[count, r1, g1, b1, r2, g2, b2, ...]`.
//! Run-length bytes: `[count_high, count_low, value]` repeated; each triple
//! stands for `count` copies of `value`.  A decoded cell is a palette index:
//! `0` means unchecked, `k >= 1` means checked with palette colour `k`.

use vstd::prelude::*;
use crate::grid::CHECKBOXES_PER_CHUNK;

verus! {

/// The big-endian run length held by the triple that starts at `3 * k`.
pub open spec fn run_count(e: Seq<u8>, k: int) -> nat {
    (e[3 * k] as nat) * 256 + (e[3 * k + 1] as nat)
}

/// The cells that the first `k` complete triples of `e` stand for.
pub open spec fn rle_runs(e: Seq<u8>, k: int) -> Seq<u8>
    decreases k,
{
    if k <= 0 {
        Seq::empty()
    } else {
        rle_runs(e, k - 1) + Seq::new(run_count(e, k - 1), |j: int| e[3 * (k - 1) + 2])
    }
}

/// The first `n` cells of `s`, padded with zeros (unchecked) up to exactly `n` cells.
pub open spec fn fit_to_len(s: Seq<u8>, n: nat) -> Seq<u8> {
    if s.len() >= n {
        s.take(n as int)
    } else {
        s + Seq::new((n - s.len()) as nat, |j: int| 0u8)
    }
}

/// What decoding `e` into `n` cells gives: every complete triple expanded, a
/// trailing partial triple ignored, cut or zero-padded to `n` cells.
pub open spec fn rle_decoded(e: Seq<u8>, n: nat) -> Seq<u8> {
    fit_to_len(rle_runs(e, (e.len() / 3) as int), n)
}

/// Expanding more triples only extends what fewer triples gave.
proof fn lemma_rle_runs_prefix(e: Seq<u8>, k: int, j: int)
    requires
        0 <= k <= j,
    ensures
        rle_runs(e, k).len() <= rle_runs(e, j).len(),
        rle_runs(e, j).take(rle_runs(e, k).len() as int) == rle_runs(e, k),
    decreases j - k,
{
    if k < j {
        lemma_rle_runs_prefix(e, k, j - 1);
        let a = rle_runs(e, k);
        let b = rle_runs(e, j - 1);
        let c = rle_runs(e, j);
        assert(c == b + Seq::new(run_count(e, j - 1), |i: int| e[3 * (j - 1) + 2]));
        assert(c.take(a.len() as int) =~= b.take(a.len() as int));
    }
}

/// Decodes run-length data into exactly `expected_len` cells.
pub fn rle_decode(encoded: &[u8], expected_len: usize) -> (r: Vec<u8>)
    ensures
        r@ == rle_decoded(encoded@, expected_len as nat),
        r@.len() == expected_len,
{
    let ghost e = encoded@;
    let ghost n = expected_len as nat;
    let mut result: Vec<u8> = Vec::with_capacity(expected_len);
    let mut i: usize = 0;
    let ghost mut k: int = 0;

    while encoded.len() > 2 && i < encoded.len() - 2 && result.len() < expected_len
        invariant
            e == encoded@,
            n == expected_len as nat,
            i == 3 * k,
            0 <= k <= e.len() / 3,
            i <= encoded.len(),
            result@.len() <= n,
            result@.len() <= rle_runs(e, k).len(),
            result@ == rle_runs(e, k).take(result@.len() as int),
            result@.len() < n ==> result@ == rle_runs(e, k),
        decreases encoded.len() - i,
    {
        let count: u16 = (encoded[i] as u16) * 256 + (encoded[i + 1] as u16);
        let value = encoded[i + 2];
        let ghost prev = result@;
        assert(count as nat == run_count(e, k));
        let mut j: u16 = 0;
        while j < count
            invariant_except_break
                result@.len() < n,
            invariant
                e == encoded@,
                n == expected_len as nat,
                i == 3 * k,
                0 <= k < e.len() / 3,
                value == e[3 * k + 2],
                count as nat == run_count(e, k),
                prev == rle_runs(e, k),
                prev.len() < n,
                j <= count,
                result@ == prev + Seq::new(j as nat, |x: int| value),
            ensures
                result@.len() < n ==> j == count,
                result@ == prev + Seq::new(j as nat, |x: int| value),
                result@.len() <= n,
                j <= count,
            decreases count - j,
        {
            result.push(value);
            j = j + 1;
            assert(result@ =~= prev + Seq::new(j as nat, |x: int| value));
            if result.len() >= expected_len {
                break;
            }
        }
        proof {
            let run = Seq::new(run_count(e, k), |x: int| e[3 * k + 2]);
            assert(rle_runs(e, k + 1) == prev + run);
            if result@.len() < n {
                assert(result@ =~= rle_runs(e, k + 1));
            } else {
                assert(result@ =~= rle_runs(e, k + 1).take(result@.len() as int));
            }
            k = k + 1;
        }
        i = i + 3;
    }
    proof {
        let all = (e.len() / 3) as int;
        lemma_rle_runs_prefix(e, k, all);
        if result@.len() < n {
            assert(k == all);
        } else {
            let a = rle_runs(e, k);
            assert(rle_runs(e, all).take(a.len() as int) == a);
            assert(fit_to_len(a, n) =~= a.take(n as int));
            assert(fit_to_len(rle_runs(e, all), n) =~= rle_runs(e, all).take(n as int));
            assert(rle_runs(e, all).take(n as int) =~= a.take(n as int));
        }
    }
    let ghost before = result@;
    result.resize(expected_len, 0u8);
    proof {
        if before.len() < n {
            assert(result@ =~= fit_to_len(rle_runs(e, (e.len() / 3) as int), n));
        } else {
            assert(result@ =~= before);
            assert(before =~= fit_to_len(rle_runs(e, (e.len() / 3) as int), n));
        }
    }
    result
}

/// One palette colour.
pub type Rgb = (u8, u8, u8);

/// Number of colours that palette bytes `d` yield: the announced count,
/// limited by the number of complete colour triples after it.
pub open spec fn palette_len(d: Seq<u8>) -> nat {
    if d.len() == 0 {
        0
    } else {
        let avail = ((d.len() - 1) / 3) as nat;
        if (d[0] as nat) < avail { d[0] as nat } else { avail }
    }
}

/// The palette that bytes `d` describe: colour `k` is the triple at `1 + 3k`.
pub open spec fn palette_of(d: Seq<u8>) -> Seq<Rgb> {
    Seq::new(palette_len(d), |k: int| (d[1 + 3 * k], d[2 + 3 * k], d[3 + 3 * k]))
}

/// Decodes a palette; colour `k` of the result is palette index `k + 1` of the cells.
pub fn palette_decode(data: &[u8]) -> (r: Vec<Rgb>)
    ensures
        r@ == palette_of(data@),
{
    if data.len() == 0 {
        return Vec::new();
    }
    let count = data[0] as usize;
    let mut colors: Vec<Rgb> = Vec::with_capacity(count);
    let mut i: usize = 1;
    while data.len() > 2 && i < data.len() - 2 && colors.len() < count
        invariant
            data.len() >= 1,
            count == data@[0] as usize,
            i == 1 + 3 * colors@.len(),
            colors@.len() <= count,
            colors@.len() <= (data@.len() - 1) / 3,
            forall|k: int|
                0 <= k < colors@.len() ==> #[trigger] colors@[k] == (
                    data@[1 + 3 * k],
                    data@[2 + 3 * k],
                    data@[3 + 3 * k],
                ),
        decreases data.len() - i,
    {
        colors.push((data[i], data[i + 1], data[i + 2]));
        i = i + 3;
    }
    assert(colors@.len() == palette_len(data@));
    assert(colors@ =~= palette_of(data@));
    colors
}

/// The RGBA bytes of one cell with palette index `idx`: checked cells take
/// their palette colour and alpha `0xFF`; index `0` and indices past the
/// palette are unchecked, drawn in `unchecked` with alpha `0`.
pub open spec fn cell_rgba(palette: Seq<Rgb>, idx: u8, unchecked: Rgb) -> Seq<u8> {
    if idx == 0 || idx as int > palette.len() {
        seq![unchecked.0, unchecked.1, unchecked.2, 0u8]
    } else {
        let c = palette[idx - 1];
        seq![c.0, c.1, c.2, 0xFFu8]
    }
}

/// A checked cell with palette index `k` (`1 <= k <=` the number of
/// colours) is drawn in the `k`-th colour of the palette bytes, the triple
/// at `1 + 3(k - 1)`, with alpha `0xFF`; index `0` and indices past the
/// palette are drawn in the unchecked colour with alpha `0`.
pub proof fn lemma_cell_colour(d: Seq<u8>, k: u8, unchecked: Rgb)
    ensures
        1 <= k <= palette_len(d) ==> cell_rgba(palette_of(d), k, unchecked) == seq![
            d[1 + 3 * (k - 1)],
            d[2 + 3 * (k - 1)],
            d[3 + 3 * (k - 1)],
            0xFFu8,
        ],
        (k == 0 || k > palette_len(d)) ==> cell_rgba(palette_of(d), k, unchecked) == seq![
            unchecked.0,
            unchecked.1,
            unchecked.2,
            0u8,
        ],
        palette_len(d) <= d.len() / 3,
        palette_len(d) <= d[0],
{
}

/// Decompresses one stored chunk into its RGBA texture: `4` bytes per cell,
/// for every cell of the chunk.  A cell whose decoded index `k` names a
/// palette colour (`1 <= k <=` the number of colours) gets that colour's
/// bytes, found at `1 + 3(k - 1)` in the palette bytes, and alpha `0xFF`.
pub fn decompress_chunk_to_rgba(palette_data: &[u8], rle_data: &[u8], unchecked_color: Rgb) -> (r:
    Vec<u8>)
    ensures
        r@.len() == 4 * CHECKBOXES_PER_CHUNK,
        forall|i: int|
            0 <= i < CHECKBOXES_PER_CHUNK ==> #[trigger] r@.subrange(4 * i, 4 * i + 4) == cell_rgba(
                palette_of(palette_data@),
                rle_decoded(rle_data@, CHECKBOXES_PER_CHUNK as nat)[i],
                unchecked_color,
            ),
        forall|i: int|
            0 <= i < CHECKBOXES_PER_CHUNK ==> {
                let k = #[trigger] rle_decoded(rle_data@, CHECKBOXES_PER_CHUNK as nat)[i];
                1 <= k <= palette_len(palette_data@) ==> {
                    &&& r@[4 * i] == palette_data@[1 + 3 * (k - 1)]
                    &&& r@[4 * i + 1] == palette_data@[2 + 3 * (k - 1)]
                    &&& r@[4 * i + 2] == palette_data@[3 + 3 * (k - 1)]
                    &&& r@[4 * i + 3] == 0xFF
                }
            },
{
    let palette = palette_decode(palette_data);
    let cells = rle_decode(rle_data, CHECKBOXES_PER_CHUNK);
    let ghost pal = palette@;
    let ghost cs = cells@;
    let mut rgba: Vec<u8> = Vec::with_capacity(CHECKBOXES_PER_CHUNK * 4);
    let mut i: usize = 0;
    while i < cells.len()
        invariant
            cells@ == cs,
            palette@ == pal,
            cs.len() == CHECKBOXES_PER_CHUNK,
            i <= cs.len(),
            rgba@.len() == 4 * i,
            forall|j: int|
                0 <= j < i ==> #[trigger] rgba@.subrange(4 * j, 4 * j + 4) == cell_rgba(
                    pal,
                    cs[j],
                    unchecked_color,
                ),
        decreases cs.len() - i,
    {
        let idx = cells[i];
        let ghost before = rgba@;
        if idx == 0 || idx as usize > palette.len() {
            rgba.push(unchecked_color.0);
            rgba.push(unchecked_color.1);
            rgba.push(unchecked_color.2);
            rgba.push(0x00);
        } else {
            let c = palette[idx as usize - 1];
            rgba.push(c.0);
            rgba.push(c.1);
            rgba.push(c.2);
            rgba.push(0xFF);
        }
        proof {
            assert(rgba@.subrange(4 * i as int, 4 * i as int + 4) =~= cell_rgba(pal, cs[i as int], unchecked_color));
            assert forall|j: int| 0 <= j < i + 1 implies #[trigger] rgba@.subrange(4 * j, 4 * j + 4) == cell_rgba(pal, cs[j], unchecked_color) by {
                if j < i {
                    assert(rgba@.subrange(4 * j, 4 * j + 4) =~= before.subrange(4 * j, 4 * j + 4));
                }
            }
        }
        i = i + 1;
    }
    proof {
        assert forall|i: int| 0 <= i < CHECKBOXES_PER_CHUNK implies {
            let k = #[trigger] rle_decoded(rle_data@, CHECKBOXES_PER_CHUNK as nat)[i];
            1 <= k <= palette_len(palette_data@) ==> {
                &&& rgba@[4 * i] == palette_data@[1 + 3 * (k - 1)]
                &&& rgba@[4 * i + 1] == palette_data@[2 + 3 * (k - 1)]
                &&& rgba@[4 * i + 2] == palette_data@[3 + 3 * (k - 1)]
                &&& rgba@[4 * i + 3] == 0xFF
            }
        } by {
            let k = cs[i];
            lemma_cell_colour(palette_data@, k, unchecked_color);
            let cell = rgba@.subrange(4 * i, 4 * i + 4);
            assert(cell == cell_rgba(pal, cs[i], unchecked_color));
            assert(rgba@[4 * i] == cell[0]);
            assert(rgba@[4 * i + 1] == cell[1]);
            assert(rgba@[4 * i + 2] == cell[2]);
            assert(rgba@[4 * i + 3] == cell[3]);
        }
    }
    rgba
}

} // verus!
