//! Little-endian integers inside byte sequences.

use vstd::prelude::*;

verus! {

/// The unsigned 32-bit little-endian number stored at `s[at..at + 4]`.
pub open spec fn le_u32(s: Seq<u8>, at: int) -> int {
    s[at] as int + s[at + 1] as int * 0x100 + s[at + 2] as int * 0x1_0000 + s[at + 3] as int
        * 0x100_0000
}

/// The unsigned 64-bit little-endian number stored at `s[at..at + 8]`.
pub open spec fn le_u64(s: Seq<u8>, at: int) -> int {
    le_u32(s, at) + le_u32(s, at + 4) * 0x1_0000_0000
}

/// The two's-complement 64-bit little-endian number stored at `s[at..at + 8]`.
pub open spec fn le_i64(s: Seq<u8>, at: int) -> int {
    let u = le_u64(s, at);
    if u < 0x8000_0000_0000_0000 { u } else { u - 0x1_0000_0000_0000_0000 }
}

/// The four little-endian bytes of `x`.
pub open spec fn u32_le_bytes(x: u32) -> Seq<u8> {
    seq![
        (x % 0x100) as u8,
        ((x / 0x100) % 0x100) as u8,
        ((x / 0x1_0000) % 0x100) as u8,
        (x / 0x100_0000) as u8,
    ]
}

/// Reading back the bytes of `x` gives `x`.
pub proof fn lemma_u32_le_roundtrip(x: u32)
    ensures
        u32_le_bytes(x).len() == 4,
        le_u32(u32_le_bytes(x), 0) == x as int,
{
    let b = u32_le_bytes(x);
    let xi = x as int;
    assert(xi == xi % 0x100 + (xi / 0x100 % 0x100) * 0x100 + (xi / 0x1_0000 % 0x100) * 0x1_0000 + (
    xi / 0x100_0000) * 0x100_0000) by (nonlinear_arith)
        requires
            0 <= xi < 0x1_0000_0000,
    ;
    assert(b[0] as int == xi % 0x100);
    assert(b[1] as int == xi / 0x100 % 0x100);
    assert(b[2] as int == xi / 0x1_0000 % 0x100);
    let t = x / 0x100_0000;
    assert(t < 0x100);
    assert(b[3] == t);
}

/// Reads the little-endian `u32` at `b[at..at + 4]`.
pub fn read_u32_le(b: &[u8], at: usize) -> (r: u32)
    requires
        at + 4 <= b.len(),
    ensures
        r as int == le_u32(b@, at as int),
{
    (b[at] as u32) + (b[at + 1] as u32) * 0x100 + (b[at + 2] as u32) * 0x1_0000 + (b[at + 3] as u32)
        * 0x100_0000
}

/// Reads the little-endian `u64` at `b[at..at + 8]`.
pub fn read_u64_le(b: &[u8], at: usize) -> (r: u64)
    requires
        at + 8 <= b.len(),
    ensures
        r as int == le_u64(b@, at as int),
{
    let lo = read_u32_le(b, at) as u64;
    let hi = read_u32_le(b, at + 4) as u64;
    lo + hi * 0x1_0000_0000
}

/// Reads the little-endian two's-complement `i64` at `b[at..at + 8]`.
pub fn read_i64_le(b: &[u8], at: usize) -> (r: i64)
    requires
        at + 8 <= b.len(),
    ensures
        r as int == le_i64(b@, at as int),
{
    let u = read_u64_le(b, at);
    if u < 0x8000_0000_0000_0000 {
        u as i64
    } else {
        let v: u64 = u - 0x8000_0000_0000_0000;
        (v as i64) - 0x7FFF_FFFF_FFFF_FFFF - 1
    }
}

/// Appends the four little-endian bytes of `x`.
pub fn push_u32_le(buf: &mut Vec<u8>, x: u32)
    ensures
        final(buf)@ == old(buf)@ + u32_le_bytes(x),
{
    buf.push((x % 0x100) as u8);
    buf.push(((x / 0x100) % 0x100) as u8);
    buf.push(((x / 0x1_0000) % 0x100) as u8);
    buf.push((x / 0x100_0000) as u8);
    assert(buf@ =~= old(buf)@ + u32_le_bytes(x));
}

/// The eight little-endian bytes of `x` in two's complement.
pub open spec fn i64_le_bytes(x: i64) -> Seq<u8> {
    let u: int = if x >= 0 { x as int } else { x + 0x1_0000_0000_0000_0000 };
    u32_le_bytes((u % 0x1_0000_0000) as u32) + u32_le_bytes((u / 0x1_0000_0000) as u32)
}

/// Appends the eight little-endian two's-complement bytes of `x`.
pub fn push_i64_le(buf: &mut Vec<u8>, x: i64)
    ensures
        final(buf)@ == old(buf)@ + i64_le_bytes(x),
{
    let u: u64 = if x >= 0 {
        x as u64
    } else {
        ((x + 0x7FFF_FFFF_FFFF_FFFF + 1) as u64) + 0x8000_0000_0000_0000
    };
    let ghost before = buf@;
    push_u32_le(buf, (u % 0x1_0000_0000) as u32);
    push_u32_le(buf, (u / 0x1_0000_0000) as u32);
    assert(buf@ =~= before + i64_le_bytes(x));
}

} // verus!
