//! Big-endian integer readers over byte buffers.
//!
//! Every multi-byte integer in the on-disk format is big-endian. The spec
//! functions below are the single definition of what such a field means;
//! the executable readers are proved to return exactly that value.

use vstd::prelude::*;

verus! {

/// The big-endian 16-bit integer whose bytes start at index `i` of `b`.
pub open spec fn be16_at(b: Seq<u8>, i: int) -> u16
    recommends
        0 <= i,
        i + 2 <= b.len(),
{
    (b[i] as int * 0x100 + b[i + 1] as int) as u16
}

/// The big-endian 32-bit integer whose bytes start at index `i` of `b`.
pub open spec fn be32_at(b: Seq<u8>, i: int) -> u32
    recommends
        0 <= i,
        i + 4 <= b.len(),
{
    (b[i] as int * 0x1000000 + b[i + 1] as int * 0x10000 + b[i + 2] as int * 0x100 + b[i
        + 3] as int) as u32
}

/// The big-endian 64-bit integer whose bytes start at index `i` of `b`.
pub open spec fn be64_at(b: Seq<u8>, i: int) -> u64
    recommends
        0 <= i,
        i + 8 <= b.len(),
{
    (b[i] as int * 0x100000000000000 + b[i + 1] as int * 0x1000000000000 + b[i + 2] as int
        * 0x10000000000 + b[i + 3] as int * 0x100000000 + b[i + 4] as int * 0x1000000 + b[i
        + 5] as int * 0x10000 + b[i + 6] as int * 0x100 + b[i + 7] as int) as u64
}

/// Read a big-endian 16-bit integer at byte offset `i`.
pub fn read_be16(b: &[u8], i: usize) -> (r: u16)
    requires
        i + 2 <= b@.len(),
    ensures
        r == be16_at(b@, i as int),
{
    b[i] as u16 * 0x100 + b[i + 1] as u16
}

/// Read a big-endian 32-bit integer at byte offset `i`.
pub fn read_be32(b: &[u8], i: usize) -> (r: u32)
    requires
        i + 4 <= b@.len(),
    ensures
        r == be32_at(b@, i as int),
{
    b[i] as u32 * 0x1000000 + b[i + 1] as u32 * 0x10000 + b[i + 2] as u32 * 0x100 + b[i
        + 3] as u32
}

/// Read a big-endian 64-bit integer at byte offset `i`.
pub fn read_be64(b: &[u8], i: usize) -> (r: u64)
    requires
        i + 8 <= b@.len(),
    ensures
        r == be64_at(b@, i as int),
{
    b[i] as u64 * 0x100000000000000 + b[i + 1] as u64 * 0x1000000000000 + b[i + 2] as u64
        * 0x10000000000 + b[i + 3] as u64 * 0x100000000 + b[i + 4] as u64 * 0x1000000 + b[i
        + 5] as u64 * 0x10000 + b[i + 6] as u64 * 0x100 + b[i + 7] as u64
}

} // verus!
