//! Framing of the bytes that travel between the server, the worker and the
//! main thread: compressed server messages, table rows holding a byte
//! list, and tagged binary messages from the worker to the main thread.

use vstd::prelude::*;
use crate::le::{le_u32, read_u32_le};

verus! {

/// Tag byte of an uncompressed server message.
pub const COMPRESSION_NONE: u8 = 0;

/// Tag byte of a brotli-compressed server message.
pub const COMPRESSION_BROTLI: u8 = 1;

/// Tag byte of a gzip-compressed server message.
pub const COMPRESSION_GZIP: u8 = 2;

/// Tag of a worker message that carries a full snapshot.
pub const TAG_SNAPSHOT: u8 = 1;

/// Tag of a worker message that carries a packed frame delta.
pub const TAG_FRAME_DELTA: u8 = 2;

/// What brotli decompression of `data` yields, or `None` when `data` is not a valid brotli stream.
pub uninterp spec fn brotli_decoded(data: Seq<u8>) -> Option<Seq<u8>>;

/// What gzip decompression of `data` yields, or `None` when `data` is not a valid gzip stream.
pub uninterp spec fn gzip_decoded(data: Seq<u8>) -> Option<Seq<u8>>;

/// Decompresses a brotli stream with `brotli::Decompressor` (4096-byte
/// buffer), reading it to the end.  Trusted: the result is whatever the
/// brotli crate decodes from exactly these bytes, `None` on its error.
#[verifier::external_body]
fn decompress_brotli(data: &[u8]) -> (r: Option<Vec<u8>>)
    ensures
        match r {
            Some(v) => brotli_decoded(data@) == Some(v@),
            None => brotli_decoded(data@) is None,
        },
{
    let mut out = Vec::new();
    match std::io::Read::read_to_end(&mut brotli::Decompressor::new(data, 4096), &mut out) {
        Ok(_) => Some(out),
        Err(_) => None,
    }
}

/// Decompresses a gzip stream with `flate2::read::GzDecoder`, reading it to
/// the end.  Trusted: the result is whatever flate2 decodes from exactly
/// these bytes, `None` on its error.
#[verifier::external_body]
fn decompress_gzip(data: &[u8]) -> (r: Option<Vec<u8>>)
    ensures
        match r {
            Some(v) => gzip_decoded(data@) == Some(v@),
            None => gzip_decoded(data@) is None,
        },
{
    let mut out = Vec::new();
    match std::io::Read::read_to_end(&mut flate2::read::GzDecoder::new(data), &mut out) {
        Ok(_) => Some(out),
        Err(_) => None,
    }
}

/// The body of a server message: the bytes after the compression tag, as
/// the tag says to read them; `None` for an empty message, an unknown tag,
/// or a body that does not decompress.
pub open spec fn message_body(b: Seq<u8>) -> Option<Seq<u8>> {
    if b.len() == 0 {
        None
    } else if b[0] == COMPRESSION_NONE {
        Some(b.drop_first())
    } else if b[0] == COMPRESSION_BROTLI {
        brotli_decoded(b.drop_first())
    } else if b[0] == COMPRESSION_GZIP {
        gzip_decoded(b.drop_first())
    } else {
        None
    }
}

/// Copies `b[from..]`.
fn tail(b: &[u8], from: usize) -> (r: Vec<u8>)
    requires
        from <= b@.len(),
    ensures
        r@ == b@.subrange(from as int, b@.len() as int),
{
    copy_range(b, from, b.len())
}

/// Copies `b`.
pub(crate) fn copy_bytes(b: &[u8]) -> (r: Vec<u8>)
    ensures
        r@ == b@,
{
    let r = copy_range(b, 0, b.len());
    assert(b@.subrange(0, b@.len() as int) =~= b@);
    r
}

/// Copies `b[from..to]`.
pub(crate) fn copy_range(b: &[u8], from: usize, to: usize) -> (r: Vec<u8>)
    requires
        from <= to <= b@.len(),
    ensures
        r@ == b@.subrange(from as int, to as int),
{
    let mut out: Vec<u8> = Vec::with_capacity(to - from);
    let mut i = from;
    while i < to
        invariant
            from <= i <= to <= b@.len(),
            out@ == b@.subrange(from as int, i as int),
        decreases to - i,
    {
        out.push(b[i]);
        i = i + 1;
        assert(out@ =~= b@.subrange(from as int, i as int));
    }
    out
}

/// Strips the compression tag of a server message and decompresses its body.
pub fn decompress_message(bytes: &[u8]) -> (r: Option<Vec<u8>>)
    ensures
        match r {
            Some(v) => message_body(bytes@) == Some(v@),
            None => message_body(bytes@) is None,
        },
{
    if bytes.len() == 0 {
        return None;
    }
    let body = tail(bytes, 1);
    assert(body@ == bytes@.drop_first());
    if bytes[0] == COMPRESSION_NONE {
        Some(body)
    } else if bytes[0] == COMPRESSION_BROTLI {
        decompress_brotli(body.as_slice())
    } else if bytes[0] == COMPRESSION_GZIP {
        decompress_gzip(body.as_slice())
    } else {
        None
    }
}

/// The byte list held by a table row whose first field is an 8-byte id and
/// whose second is a `u32`-length-prefixed byte list; `None` when the row
/// ends before the list does.
pub open spec fn row_byte_list(b: Seq<u8>) -> Option<Seq<u8>> {
    if b.len() < 12 || b.len() < 12 + le_u32(b, 8) {
        None
    } else {
        Some(b.subrange(12, 12 + le_u32(b, 8)))
    }
}

/// The packed delta held by a `frame` row (`id: u64`, `data: Vec<u8>`).
pub fn parse_frame(bytes: &[u8]) -> (r: Option<Vec<u8>>)
    ensures
        match r {
            Some(v) => row_byte_list(bytes@) == Some(v@),
            None => row_byte_list(bytes@) is None,
        },
{
    row_list(bytes)
}

/// The RGBA state held by a `snapshot` row (`id: u64`, `state: Vec<u8>`).
pub fn parse_snapshot(bytes: &[u8]) -> (r: Option<Vec<u8>>)
    ensures
        match r {
            Some(v) => row_byte_list(bytes@) == Some(v@),
            None => row_byte_list(bytes@) is None,
        },
{
    row_list(bytes)
}

fn row_list(bytes: &[u8]) -> (r: Option<Vec<u8>>)
    ensures
        match r {
            Some(v) => row_byte_list(bytes@) == Some(v@),
            None => row_byte_list(bytes@) is None,
        },
{
    if bytes.len() < 12 {
        return None;
    }
    let len = read_u32_le(bytes, 8) as usize;
    if bytes.len() - 12 < len {
        return None;
    }
    Some(copy_range(bytes, 12, 12 + len))
}

/// A list of table rows as the server sends it: the rows' bytes back to
/// back, with how to cut them apart.
#[derive(Debug, Clone)]
pub enum RowList {
    /// Every row has this many bytes.
    Fixed(u16, Vec<u8>),
    /// Each row starts at its offset and ends where the next one starts, the
    /// last one at the end of the bytes.
    Offsets(Vec<u64>, Vec<u8>),
}

/// Byte sequences as plain values.
pub open spec fn rows_view(rows: Seq<Vec<u8>>) -> Seq<Seq<u8>> {
    rows.map_values(|r: Vec<u8>| r@)
}

/// Where row `i` of a list with these offsets ends.
pub open spec fn offset_end(o: Seq<u64>, i: int, len: int) -> int {
    if i + 1 < o.len() {
        o[i + 1] as int
    } else {
        len
    }
}

/// The rows of a row list, or `None` when its hint does not cut the bytes
/// into rows: a fixed size that is zero or does not divide the (non-empty)
/// bytes, or offsets that decrease or point past the end.
pub open spec fn split_rows(l: RowList) -> Option<Seq<Seq<u8>>> {
    match l {
        RowList::Fixed(s, data) => {
            let d = data@;
            if d.len() == 0 {
                Some(Seq::empty())
            } else if s > 0 && d.len() % (s as nat) == 0 {
                Some(Seq::new(d.len() / (s as nat), |i: int| d.subrange(i * s, (i + 1) * s)))
            } else {
                None
            }
        },
        RowList::Offsets(o, data) => {
            let d = data@;
            if forall|i: int|
                0 <= i < o@.len() ==> o@[i] <= #[trigger] offset_end(o@, i, d.len() as int) <= d.len() {
                Some(Seq::new(o@.len(), |i: int| d.subrange(o@[i] as int, offset_end(o@, i, d.len() as int))))
            } else {
                None
            }
        },
    }
}

/// The rows of a row list; none when its hint does not cut the bytes into rows.
pub open spec fn list_rows(l: RowList) -> Seq<Seq<u8>> {
    match split_rows(l) {
        Some(r) => r,
        None => Seq::empty(),
    }
}

/// Cuts a row list into its rows; `None` when the hint does not fit the bytes.
pub fn split_row_list(l: &RowList) -> (r: Option<Vec<Vec<u8>>>)
    ensures
        match r {
            Some(v) => split_rows(*l) == Some(rows_view(v@)),
            None => split_rows(*l) is None,
        },
{
    let mut out: Vec<Vec<u8>> = Vec::new();
    match l {
        RowList::Fixed(size, data) => {
            let d = data.as_slice();
            let n = d.len();
            if n == 0 {
                assert(rows_view(out@) =~= Seq::<Seq<u8>>::empty());
                return Some(out);
            }
            let s = *size as usize;
            if s == 0 || n % s != 0 {
                return None;
            }
            let count = n / s;
            let ghost want = Seq::new(d@.len() / (s as nat), |i: int| d@.subrange(i * s, (i + 1) * s));
            let mut i: usize = 0;
            while i < count
                invariant
                    n == d@.len(),
                    0 < s,
                    n % s == 0,
                    count == n / s,
                    want == Seq::new(d@.len() / (s as nat), |i: int| d@.subrange(i * s, (i + 1) * s)),
                    i <= count,
                    rows_view(out@) == want.take(i as int),
                decreases count - i,
            {
                proof {
                    assert((i + 1) * s <= n) by (nonlinear_arith)
                        requires
                            i < count,
                            count == n / s,
                            n % s == 0,
                            0 < s,
                    ;
                    assert(i * s + s == (i + 1) * s) by (nonlinear_arith);
                }
                let row = copy_range(d, i * s, i * s + s);
                let ghost before = out@;
                out.push(row);
                proof {
                    assert(want[i as int] == d@.subrange(i * s, (i + 1) * s));
                    assert(rows_view(out@) =~= rows_view(before).push(row@));
                    assert(rows_view(out@) =~= want.take(i + 1));
                }
                i = i + 1;
            }
            assert(want.take(count as int) =~= want);
            Some(out)
        },
        RowList::Offsets(offsets, data) => {
            let d = data.as_slice();
            let n = d.len();
            let o = offsets.as_slice();
            let ghost want = Seq::new(o@.len(), |i: int| d@.subrange(o@[i] as int, offset_end(o@, i, d@.len() as int)));
            let mut i: usize = 0;
            while i < o.len()
                invariant
                    n == d@.len(),
                    *l == RowList::Offsets(*offsets, *data),
                    d@ == data@,
                    o@ == offsets@,
                    i <= o@.len(),
                    want == Seq::new(o@.len(), |i: int| d@.subrange(o@[i] as int, offset_end(o@, i, d@.len() as int))),
                    forall|j: int| 0 <= j < i ==> o@[j] <= #[trigger] offset_end(o@, j, d@.len() as int) <= d@.len(),
                    rows_view(out@) == want.take(i as int),
                decreases o@.len() - i,
            {
                let end: u64 = if i + 1 < o.len() { o[i + 1] } else { n as u64 };
                assert(end as int == offset_end(o@, i as int, d@.len() as int));
                if !(o[i] <= end && end <= n as u64) {
                    proof {
                        let k = i as int;
                        assert(!(o@[k] <= offset_end(o@, k, d@.len() as int) <= d@.len()));
                        assert(!(forall|j: int|
                            0 <= j < o@.len() ==> o@[j] <= #[trigger] offset_end(o@, j, d@.len() as int)
                                <= d@.len()));
                        assert(split_rows(*l) is None);
                    }
                    return None;
                }
                let row = copy_range(d, o[i] as usize, end as usize);
                let ghost before = out@;
                out.push(row);
                proof {
                    assert(want[i as int] == d@.subrange(o@[i as int] as int, offset_end(o@, i as int, d@.len() as int)));
                    assert(rows_view(out@) =~= rows_view(before).push(row@));
                    assert(rows_view(out@) =~= want.take(i + 1));
                }
                i = i + 1;
            }
            assert(want.take(o@.len() as int) =~= want);
            Some(out)
        },
    }
}

/// The rows of a row list; none when its hint does not fit the bytes.
pub fn rows_of(l: &RowList) -> (r: Vec<Vec<u8>>)
    ensures
        rows_view(r@) == list_rows(*l),
{
    match split_row_list(l) {
        Some(v) => v,
        None => {
            let v: Vec<Vec<u8>> = Vec::new();
            assert(rows_view(v@) =~= Seq::<Seq<u8>>::empty());
            v
        },
    }
}

/// A binary message from the worker, as the main thread reads it.
#[derive(Debug, Clone, PartialEq)]
pub enum WorkerBinary {
    /// A full RGBA snapshot to copy into the pixel buffer.
    Snapshot(Vec<u8>),
    /// A packed frame delta to apply to the pixel buffer.
    FrameDelta(Vec<u8>),
    /// An empty message or an unknown tag: nothing to do.
    Ignored,
}

/// A tagged binary message: the tag byte, then the payload.
pub fn binary_message(tag: u8, data: &[u8]) -> (r: Vec<u8>)
    ensures
        r@ == seq![tag] + data@,
{
    let mut out: Vec<u8> = Vec::with_capacity(1);
    out.push(tag);
    let mut i: usize = 0;
    while i < data.len()
        invariant
            i <= data@.len(),
            out@ == seq![tag] + data@.subrange(0, i as int),
        decreases data@.len() - i,
    {
        out.push(data[i]);
        i = i + 1;
        assert(out@ =~= seq![tag] + data@.subrange(0, i as int));
    }
    assert(data@.subrange(0, data@.len() as int) =~= data@);
    out
}

/// Reads a binary message from the worker: tag `1` carries a snapshot, tag
/// `2` a frame delta, both as the bytes after the tag; anything else is ignored.
pub fn decode_worker_binary(bytes: &[u8]) -> (r: WorkerBinary)
    ensures
        bytes@.len() > 0 && bytes@[0] == TAG_SNAPSHOT ==> (r matches WorkerBinary::Snapshot(s)
            && s@ == bytes@.drop_first()),
        bytes@.len() > 0 && bytes@[0] == TAG_FRAME_DELTA ==> (r matches WorkerBinary::FrameDelta(d)
            && d@ == bytes@.drop_first()),
        bytes@.len() == 0 || (bytes@[0] != TAG_SNAPSHOT && bytes@[0] != TAG_FRAME_DELTA) ==> r
            is Ignored,
{
    if bytes.len() < 1 {
        return WorkerBinary::Ignored;
    }
    if bytes[0] == TAG_SNAPSHOT {
        let s = tail(bytes, 1);
        assert(s@ =~= bytes@.drop_first());
        WorkerBinary::Snapshot(s)
    } else if bytes[0] == TAG_FRAME_DELTA {
        let d = tail(bytes, 1);
        assert(d@ =~= bytes@.drop_first());
        WorkerBinary::FrameDelta(d)
    } else {
        WorkerBinary::Ignored
    }
}

/// What the worker sends with a tag is what the main thread reads back under that tag.
pub proof fn lemma_binary_message_roundtrip(tag: u8, data: Seq<u8>)
    ensures
        (seq![tag] + data).len() > 0,
        (seq![tag] + data)[0] == tag,
        (seq![tag] + data).drop_first() == data,
{
    assert((seq![tag] + data).drop_first() =~= data);
}

} // verus!
