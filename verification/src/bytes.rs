//! Little-endian scalar access over byte slices, plus the sign
//! reinterpretations the wire format needs (`i16`/`i32` records travel as
//! their two's-complement unsigned images).

use vstd::bytes::{
    spec_u16_from_le_bytes, spec_u32_from_le_bytes, spec_u64_from_le_bytes, u16_from_le_bytes,
    u32_from_le_bytes, u64_from_le_bytes,
};
use vstd::prelude::*;
use vstd::slice::{slice_index_get, slice_subrange};

verus! {

/// The unsigned 32-bit image of `x` under two's complement.
pub open spec fn u32_of_i32_spec(x: i32) -> u32 {
    if x >= 0 {
        x as u32
    } else {
        (x as int + 0x1_0000_0000) as u32
    }
}

/// The signed reading of an unsigned 32-bit image.
pub open spec fn i32_of_u32_spec(x: u32) -> i32 {
    if x < 0x8000_0000 {
        x as i32
    } else {
        (x as int - 0x1_0000_0000) as i32
    }
}

/// The unsigned 16-bit image of `x` under two's complement.
pub open spec fn u16_of_i16_spec(x: i16) -> u16 {
    if x >= 0 {
        x as u16
    } else {
        (x as int + 0x1_0000) as u16
    }
}

/// The signed reading of an unsigned 16-bit image.
pub open spec fn i16_of_u16_spec(x: u16) -> i16 {
    if x < 0x8000 {
        x as i16
    } else {
        (x as int - 0x1_0000) as i16
    }
}

/// Reinterpreting a signed value as unsigned and back returns the value.
pub proof fn lemma_i32_u32_round_trip(x: i32)
    ensures
        i32_of_u32_spec(u32_of_i32_spec(x)) == x,
{
}

/// Reinterpreting a signed value as unsigned and back returns the value.
pub proof fn lemma_i16_u16_round_trip(x: i16)
    ensures
        i16_of_u16_spec(u16_of_i16_spec(x)) == x,
{
}

pub fn u32_of_i32(x: i32) -> (r: u32)
    ensures
        r == u32_of_i32_spec(x),
{
    if x >= 0 {
        x as u32
    } else {
        ((x as i64) + 0x1_0000_0000i64) as u32
    }
}

pub fn i32_of_u32(x: u32) -> (r: i32)
    ensures
        r == i32_of_u32_spec(x),
{
    if x < 0x8000_0000 {
        x as i32
    } else {
        ((x as i64) - 0x1_0000_0000i64) as i32
    }
}

pub fn u16_of_i16(x: i16) -> (r: u16)
    ensures
        r == u16_of_i16_spec(x),
{
    if x >= 0 {
        x as u16
    } else {
        ((x as i32) + 0x1_0000i32) as u16
    }
}

pub fn i16_of_u16(x: u16) -> (r: i16)
    ensures
        r == i16_of_u16_spec(x),
{
    if x < 0x8000 {
        x as i16
    } else {
        ((x as i32) - 0x1_0000i32) as i16
    }
}

/// Byte-wise equality of two slices.
pub fn eq_bytes(a: &[u8], b: &[u8]) -> (r: bool)
    ensures
        r == (a@ == b@),
{
    let na = a.len();
    let nb = b.len();
    if na != nb {
        return false;
    }
    let mut i: usize = 0;
    while i < na
        invariant
            i <= na,
            na == a@.len(),
            na == b@.len(),
            forall|k: int| 0 <= k < i ==> a@[k] == b@[k],
        decreases na - i,
    {
        if *slice_index_get(a, i) != *slice_index_get(b, i) {
            return false;
        }
        i = i + 1;
    }
    proof {
        assert(a@ =~= b@);
    }
    true
}

/// Little-endian `u16` at byte offset `off` of `b`.
pub fn read_u16_le(b: &[u8], off: usize) -> (r: u16)
    requires
        off + 2 <= b@.len(),
    ensures
        r == spec_u16_from_le_bytes(b@.subrange(off as int, off as int + 2)),
{
    let _n: usize = b.len();
    let s = slice_subrange(b, off, off + 2);
    u16_from_le_bytes(s)
}

/// Little-endian `u32` at byte offset `off` of `b`.
pub fn read_u32_le(b: &[u8], off: usize) -> (r: u32)
    requires
        off + 4 <= b@.len(),
    ensures
        r == spec_u32_from_le_bytes(b@.subrange(off as int, off as int + 4)),
{
    let _n: usize = b.len();
    let s = slice_subrange(b, off, off + 4);
    u32_from_le_bytes(s)
}

/// Little-endian `u64` at byte offset `off` of `b`.
pub fn read_u64_le(b: &[u8], off: usize) -> (r: u64)
    requires
        off + 8 <= b@.len(),
    ensures
        r == spec_u64_from_le_bytes(b@.subrange(off as int, off as int + 8)),
{
    let _n: usize = b.len();
    let s = slice_subrange(b, off, off + 8);
    u64_from_le_bytes(s)
}

} // verus!
