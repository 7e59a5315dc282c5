//! CSS hex colours (`#rrggbb`) as byte channels.

use vstd::prelude::*;
use vstd::string::StringSliceAdditionalSpecFns;

verus! {

/// `b` without its leading `#` bytes.
pub open spec fn trim_hashes(b: Seq<u8>) -> Seq<u8>
    decreases b.len(),
{
    if b.len() > 0 && b[0] == 0x23u8 {
        trim_hashes(b.drop_first())
    } else {
        b
    }
}

/// The value of an ASCII hexadecimal digit, either case.
pub open spec fn hex_digit(c: u8) -> Option<u8> {
    if 0x30 <= c <= 0x39 {
        Some((c - 0x30) as u8)
    } else if 0x61 <= c <= 0x66 {
        Some((c - 0x61 + 10) as u8)
    } else if 0x41 <= c <= 0x46 {
        Some((c - 0x41 + 10) as u8)
    } else {
        None
    }
}

/// A two-byte field read as a base-16 `u8` the way `u8::from_str_radix`
/// reads it (two hex digits, or `+` and one digit), `0` when it is not one.
pub open spec fn hex_pair(a: u8, b: u8) -> u8 {
    if a == 0x2bu8 {
        match hex_digit(b) {
            Some(v) => v,
            None => 0,
        }
    } else {
        match (hex_digit(a), hex_digit(b)) {
            (Some(x), Some(y)) => (16 * x + y) as u8,
            _ => 0,
        }
    }
}

/// Whether byte `i` of `b` starts a character or ends the string.
pub open spec fn starts_char(b: Seq<u8>, i: int) -> bool {
    i == b.len() || (0 <= i < b.len() && !(0x80 <= b[i] < 0xC0))
}

/// Whether the three two-byte fields after the leading `#`s can be cut out
/// of the string: there are six bytes, and each field ends on a character
/// boundary.
pub open spec fn hex_color_fits(b: Seq<u8>) -> bool {
    let t = trim_hashes(b);
    &&& t.len() >= 6
    &&& starts_char(t, 2)
    &&& starts_char(t, 4)
    &&& starts_char(t, 6)
}

/// The red, green and blue channels of a hex colour.
pub open spec fn hex_color(b: Seq<u8>) -> (u8, u8, u8) {
    let t = trim_hashes(b);
    (hex_pair(t[0], t[1]), hex_pair(t[2], t[3]), hex_pair(t[4], t[5]))
}

proof fn lemma_trim_hashes(b: Seq<u8>, k: int)
    requires
        0 <= k <= b.len(),
        forall|j: int| 0 <= j < k ==> b[j] == 0x23u8,
    ensures
        trim_hashes(b) == trim_hashes(b.subrange(k, b.len() as int)),
    decreases k,
{
    if k > 0 {
        assert(b.drop_first().subrange(k - 1, b.drop_first().len() as int) =~= b.subrange(
            k,
            b.len() as int,
        ));
        lemma_trim_hashes(b.drop_first(), k - 1);
    } else {
        assert(b.subrange(0, b.len() as int) =~= b);
    }
}

fn hex_digit_of(c: u8) -> (r: Option<u8>)
    ensures
        r == hex_digit(c),
{
    if 0x30 <= c && c <= 0x39 {
        Some(c - 0x30)
    } else if 0x61 <= c && c <= 0x66 {
        Some(c - 0x61 + 10)
    } else if 0x41 <= c && c <= 0x46 {
        Some(c - 0x41 + 10)
    } else {
        None
    }
}

fn hex_pair_of(a: u8, b: u8) -> (r: u8)
    ensures
        r == hex_pair(a, b),
{
    if a == 0x2b {
        match hex_digit_of(b) {
            Some(v) => v,
            None => 0,
        }
    } else {
        match (hex_digit_of(a), hex_digit_of(b)) {
            (Some(x), Some(y)) => 16 * x + y,
            _ => 0,
        }
    }
}

/// The channels of a colour written `#rrggbb` (any number of leading `#`):
/// each two-byte field is read in base 16, and a field that is not a
/// number reads as `0`.
pub fn hex_color_channels(hex: &str) -> (r: (u8, u8, u8))
    requires
        hex_color_fits(hex.spec_bytes()),
    ensures
        r == hex_color(hex.spec_bytes()),
{
    let b = hex.as_bytes();
    let mut k: usize = 0;
    while k < b.len() && b[k] == 0x23
        invariant
            k <= b@.len(),
            forall|j: int| 0 <= j < k ==> b@[j] == 0x23u8,
        decreases b@.len() - k,
    {
        k = k + 1;
    }
    proof {
        lemma_trim_hashes(b@, k as int);
        let rest = b@.subrange(k as int, b@.len() as int);
        assert(trim_hashes(rest) == rest);
    }
    let red = hex_pair_of(b[k], b[k + 1]);
    let green = hex_pair_of(b[k + 2], b[k + 3]);
    let blue = hex_pair_of(b[k + 4], b[k + 5]);
    (red, green, blue)
}

} // verus!
