//! Little-endian readers over byte vectors, the base of every decoder here.
use vstd::prelude::*;

verus! {

/// The 16-bit little-endian value stored at `off`.
pub open spec fn le16(d: Seq<u8>, off: int) -> u16 {
    (d[off] as int + d[off + 1] as int * 0x100) as u16
}

/// The 32-bit little-endian value stored at `off`.
pub open spec fn le32(d: Seq<u8>, off: int) -> u32 {
    (d[off] as int + d[off + 1] as int * 0x100 + d[off + 2] as int * 0x10000 + d[off
        + 3] as int * 0x1000000) as u32
}

/// The 64-bit little-endian value stored at `off`.
pub open spec fn le64(d: Seq<u8>, off: int) -> u64 {
    (le32(d, off) as int + le32(d, off + 4) as int * 0x100000000) as u64
}

pub fn read_le16(d: &Vec<u8>, off: usize) -> (r: u16)
    requires
        off + 2 <= d@.len(),
    ensures
        r == le16(d@, off as int),
{
    let _n = d.len();
    d[off] as u16 + d[off + 1] as u16 * 0x100
}

pub fn read_le32(d: &Vec<u8>, off: usize) -> (r: u32)
    requires
        off + 4 <= d@.len(),
    ensures
        r == le32(d@, off as int),
{
    let _n = d.len();
    d[off] as u32 + d[off + 1] as u32 * 0x100 + d[off + 2] as u32 * 0x10000 + d[off
        + 3] as u32 * 0x1000000
}

pub fn read_le64(d: &Vec<u8>, off: usize) -> (r: u64)
    requires
        off + 8 <= d@.len(),
    ensures
        r == le64(d@, off as int),
{
    let _n = d.len();
    let lo = read_le32(d, off);
    let hi = read_le32(d, off + 4);
    lo as u64 + hi as u64 * 0x100000000
}

/// Copies `d[start..end]` into a fresh vector.
pub fn copy_range(d: &Vec<u8>, start: usize, end: usize) -> (r: Vec<u8>)
    requires
        start <= end <= d@.len(),
    ensures
        r@ == d@.subrange(start as int, end as int),
{
    let mut r: Vec<u8> = Vec::new();
    let mut i: usize = start;
    while i < end
        invariant
            start <= i <= end <= d@.len(),
            r@ == d@.subrange(start as int, i as int),
        decreases end - i,
    {
        r.push(d[i]);
        i += 1;
        assert(d@.subrange(start as int, i as int) =~= d@.subrange(start as int, i - 1).push(
            d@[i - 1],
        ));
    }
    r
}

/// The sequence of 32-bit little-endian values packed into `d`.
pub open spec fn u32s_of(d: Seq<u8>) -> Seq<u32> {
    Seq::new((d.len() / 4) as nat, |i: int| le32(d, 4 * i))
}

/// Reads `d` as an array of 32-bit little-endian values.
pub fn read_u32s(d: &Vec<u8>) -> (r: Vec<u32>)
    ensures
        r@ == u32s_of(d@),
{
    let n = d.len() / 4;
    let mut r: Vec<u32> = Vec::new();
    let mut i: usize = 0;
    while i < n
        invariant
            n == d@.len() / 4,
            d@.len() <= usize::MAX,
            i <= n,
            r@.len() == i,
            forall|j: int| 0 <= j < i ==> r@[j] == le32(d@, 4 * j),
        decreases n - i,
    {
        r.push(read_le32(d, 4 * i));
        i += 1;
    }
    assert(r@ =~= u32s_of(d@));
    r
}

} // verus!
