//! Little-endian integer fields of binary structures.

use vstd::prelude::*;

verus! {

/// The distance from `from` up to `to`, zero when `from` is not below `to`.
pub open spec fn gap(from: int, to: int) -> nat {
    if from < to {
        (to - from) as nat
    } else {
        0
    }
}

/// The unsigned integer stored little-endian in `b[off..off + 2]`.
pub open spec fn le_u16(b: Seq<u8>, off: int) -> nat {
    (b[off] + 256 * b[off + 1]) as nat
}

/// The unsigned integer stored little-endian in `b[off..off + 4]`.
pub open spec fn le_u32(b: Seq<u8>, off: int) -> nat {
    (b[off] + 256 * b[off + 1] + 65536 * b[off + 2] + 16777216 * b[off + 3]) as nat
}

/// Reads the little-endian `u16` at `off`.
pub fn read_u16_le(data: &[u8], off: usize) -> (r: u16)
    requires
        off + 2 <= data@.len(),
    ensures
        r == le_u16(data@, off as int),
{
    let b0: u16 = data[off] as u16;
    let b1: u16 = data[off + 1] as u16;
    b0 + 256 * b1
}

/// Reads the little-endian `u32` at `off`.
pub fn read_u32_le(data: &[u8], off: usize) -> (r: u32)
    requires
        off + 4 <= data@.len(),
    ensures
        r == le_u32(data@, off as int),
{
    let b0: u32 = data[off] as u32;
    let b1: u32 = data[off + 1] as u32;
    let b2: u32 = data[off + 2] as u32;
    let b3: u32 = data[off + 3] as u32;
    b0 + 256 * b1 + 65536 * b2 + 16777216 * b3
}

/// Byte-wise equality of two byte strings.
pub fn bytes_eq(a: &[u8], b: &[u8]) -> (r: bool)
    ensures
        r == (a@ == b@),
{
    if a.len() != b.len() {
        return false;
    }
    let mut i: usize = 0;
    while i < a.len()
        invariant
            a@.len() == b@.len(),
            0 <= i <= a@.len(),
            forall|j: int| 0 <= j < i ==> a@[j] == b@[j],
        decreases a@.len() - i,
    {
        if a[i] != b[i] {
            return false;
        }
        i = i + 1;
    }
    assert(a@ =~= b@);
    true
}

/// The byte strings held by a sequence of vectors.
pub open spec fn vecs_view(v: Seq<Vec<u8>>) -> Seq<Seq<u8>> {
    v.map_values(|e: Vec<u8>| e@)
}

} // verus!
