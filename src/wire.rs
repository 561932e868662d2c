//! Big-endian integer reads and single-byte fields of the ITCH wire format.
use vstd::prelude::*;

verus! {

/// Big-endian value of the two bytes at `i`.
pub open spec fn be16(s: Seq<u8>, i: int) -> int {
    s[i] * 0x100 + s[i + 1]
}

/// Big-endian value of the four bytes at `i`.
pub open spec fn be32(s: Seq<u8>, i: int) -> int {
    s[i] * 0x1000000 + s[i + 1] * 0x10000 + s[i + 2] * 0x100 + s[i + 3]
}

/// Big-endian value of the six bytes at `i`.
pub open spec fn be48(s: Seq<u8>, i: int) -> int {
    s[i] * 0x10000000000 + s[i + 1] * 0x100000000 + s[i + 2] * 0x1000000 + s[i + 3] * 0x10000
        + s[i + 4] * 0x100 + s[i + 5]
}

/// Big-endian value of the eight bytes at `i`.
pub open spec fn be64(s: Seq<u8>, i: int) -> int {
    be32(s, i) * 0x100000000 + be32(s, i + 4)
}

/// The six big-endian bytes of a 48-bit value.
pub open spec fn u48_bytes(t: u64) -> Seq<u8> {
    seq![
        ((t >> 40u64) & 0xffu64) as u8,
        ((t >> 32u64) & 0xffu64) as u8,
        ((t >> 24u64) & 0xffu64) as u8,
        ((t >> 16u64) & 0xffu64) as u8,
        ((t >> 8u64) & 0xffu64) as u8,
        (t & 0xffu64) as u8,
    ]
}

/// Reads the big-endian `u16` at `pos`.
pub(crate) fn read_u16(input: &[u8], pos: usize) -> (r: u16)
    requires
        pos + 2 <= input@.len(),
    ensures
        r as int == be16(input@, pos as int),
{
    (input[pos] as u16) * 0x100 + (input[pos + 1] as u16)
}

/// Reads the big-endian `u32` at `pos`.
pub(crate) fn read_u32(input: &[u8], pos: usize) -> (r: u32)
    requires
        pos + 4 <= input@.len(),
    ensures
        r as int == be32(input@, pos as int),
{
    (input[pos] as u32) * 0x1000000 + (input[pos + 1] as u32) * 0x10000 + (input[pos + 2] as u32)
        * 0x100 + (input[pos + 3] as u32)
}

/// Reads the big-endian 48-bit value at `pos`.
pub(crate) fn read_u48(input: &[u8], pos: usize) -> (r: u64)
    requires
        pos + 6 <= input@.len(),
    ensures
        r as int == be48(input@, pos as int),
{
    (input[pos] as u64) * 0x10000000000 + (input[pos + 1] as u64) * 0x100000000 + (input[pos
        + 2] as u64) * 0x1000000 + (input[pos + 3] as u64) * 0x10000 + (input[pos + 4] as u64)
        * 0x100 + (input[pos + 5] as u64)
}

/// Reads the big-endian `u64` at `pos`.
pub(crate) fn read_u64(input: &[u8], pos: usize) -> (r: u64)
    requires
        pos + 8 <= input@.len(),
    ensures
        r as int == be64(input@, pos as int),
{
    let n = input.len();
    assert(pos + 8 <= n);
    let hi = read_u32(input, pos) as u64;
    let lo = read_u32(input, pos + 4) as u64;
    hi * 0x100000000 + lo
}

/// The big-endian 48-bit value at the start of `i`, or `None` when fewer
/// than six bytes are available.
pub fn be_u48(i: &[u8]) -> (r: Option<u64>)
    ensures
        i@.len() < 6 ==> r is None,
        i@.len() >= 6 ==> r == Some(be48(i@, 0) as u64),
{
    if i.len() < 6 {
        None
    } else {
        Some(read_u48(i, 0))
    }
}

/// Decoding the six big-endian bytes of a 48-bit value gives the value back.
pub proof fn lemma_u48_round_trip(t: u64)
    requires
        t < 0x1000000000000,
    ensures
        be48(u48_bytes(t), 0) == t,
{
    let b = u48_bytes(t);
    let b0 = (t >> 40u64) & 0xffu64;
    let b1 = (t >> 32u64) & 0xffu64;
    let b2 = (t >> 24u64) & 0xffu64;
    let b3 = (t >> 16u64) & 0xffu64;
    let b4 = (t >> 8u64) & 0xffu64;
    let b5 = t & 0xffu64;
    assert(b0 < 256 && b1 < 256 && b2 < 256 && b3 < 256 && b4 < 256 && b5 < 256) by (bit_vector)
        requires
            b0 == (t >> 40u64) & 0xffu64,
            b1 == (t >> 32u64) & 0xffu64,
            b2 == (t >> 24u64) & 0xffu64,
            b3 == (t >> 16u64) & 0xffu64,
            b4 == (t >> 8u64) & 0xffu64,
            b5 == t & 0xffu64,
    ;
    assert(b0 * 0x10000000000u64 + b1 * 0x100000000u64 + b2 * 0x1000000u64 + b3 * 0x10000u64 + b4
        * 0x100u64 + b5 == t) by (bit_vector)
        requires
            t < 0x1000000000000u64,
            b0 == (t >> 40u64) & 0xffu64,
            b1 == (t >> 32u64) & 0xffu64,
            b2 == (t >> 24u64) & 0xffu64,
            b3 == (t >> 16u64) & 0xffu64,
            b4 == (t >> 8u64) & 0xffu64,
            b5 == t & 0xffu64,
    ;
    assert(b[0] == b0 && b[1] == b1 && b[2] == b2 && b[3] == b3 && b[4] == b4 && b[5] == b5);
}

/// The printable flag: `Y` is true, `N` false, any other byte is invalid.
pub fn char_to_bool(input: u8) -> (r: Option<bool>)
    ensures
        r == if input == 0x59 {
            Some(true)
        } else if input == 0x4e {
            Some(false)
        } else {
            None::<bool>
        },
{
    if input == 0x59u8 {
        Some(true)
    } else if input == 0x4eu8 {
        Some(false)
    } else {
        None
    }
}

} // verus!
