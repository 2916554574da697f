//! String pool: the id-indexed table of interned strings that rows
//! reference. Built from two streams: an array of (length, refcount)
//! pairs, and the concatenated string bytes they slice up.
use vstd::prelude::*;
use crate::MsiError;
use crate::bytes::le16;
use crate::bytes::read_le16;

verus! {

/// One interned string: its encoded bytes and how many consumers point
/// at it.
pub struct PoolEntry {
    pub text: Vec<u8>,
    pub refcount: u16,
}

/// The mathematical image of a pool entry.
pub ghost struct GPoolEntry {
    pub text: Seq<u8>,
    pub refcount: u16,
}

impl View for PoolEntry {
    type V = GPoolEntry;

    open spec fn view(&self) -> GPoolEntry {
        GPoolEntry { text: self.text@, refcount: self.refcount }
    }
}

/// The images of a vector of pool entries.
pub open spec fn pool_views(v: Seq<PoolEntry>) -> Seq<GPoolEntry> {
    v.map_values(|e: PoolEntry| e@)
}

/// The entries from pair `i` on, slicing `d` from byte offset `off`:
/// each pair is a byte length and a reference count, and the cumulative
/// lengths must not overrun the data stream.
pub open spec fn pool_tail(p: Seq<u8>, d: Seq<u8>, i: int, off: int) -> Result<
    Seq<GPoolEntry>,
    MsiError,
>
    decreases p.len() / 4 - i,
{
    if i < 0 || i >= p.len() / 4 {
        Ok(seq![])
    } else {
        let len = le16(p, 4 * i) as int;
        let rc = le16(p, 4 * i + 2);
        if off < 0 || off + len > d.len() {
            Err(MsiError::StringPoolMismatch)
        } else {
            match pool_tail(p, d, i + 1, off + len) {
                Ok(rest) => Ok(
                    seq![GPoolEntry { text: d.subrange(off, off + len), refcount: rc }] + rest,
                ),
                Err(e) => Err(e),
            }
        }
    }
}

/// The whole pool: the first pair carries the codepage and the pool
/// flags, the remaining pairs carry the entries, id 1 first.
pub open spec fn pool_spec(p: Seq<u8>, d: Seq<u8>) -> Result<Seq<GPoolEntry>, MsiError> {
    if p.len() < 4 || p.len() % 4 != 0 {
        Err(MsiError::StringPoolMismatch)
    } else {
        pool_tail(p, d, 1, 0)
    }
}

/// The codepage recorded in the pool's first pair.
pub open spec fn pool_codepage_spec(p: Seq<u8>) -> u16 {
    le16(p, 0)
}

/// Decodes the pool streams into the entry table, id `i` at position
/// `i - 1`; id 0 stays reserved for "no string".
pub fn parse_pool(p: &Vec<u8>, d: &Vec<u8>) -> (r: Result<Vec<PoolEntry>, MsiError>)
    ensures
        match pool_spec(p@, d@) {
            Ok(entries) => r matches Ok(v) && pool_views(v@) == entries,
            Err(e) => r == Err::<Vec<PoolEntry>, MsiError>(e),
        },
{
    let _n = p.len();
    let _m = d.len();
    if p.len() < 4 || p.len() % 4 != 0 {
        return Err(MsiError::StringPoolMismatch);
    }
    let count = p.len() / 4;
    let mut v: Vec<PoolEntry> = Vec::new();
    let mut i: usize = 1;
    let mut off: usize = 0;
    assert(pool_views(v@) =~= Seq::<GPoolEntry>::empty());
    while i < count
        invariant
            count == p@.len() / 4,
            p@.len() % 4 == 0,
            p@.len() >= 4,
            p@.len() <= usize::MAX,
            d@.len() <= usize::MAX,
            1 <= i <= count,
            off <= d@.len(),
            match pool_tail(p@, d@, 1, 0) {
                Ok(entries) => pool_tail(p@, d@, i as int, off as int) matches Ok(rest)
                    && pool_views(v@) + rest == entries,
                Err(e) => pool_tail(p@, d@, i as int, off as int) == Err::<
                    Seq<GPoolEntry>,
                    MsiError,
                >(e),
            },
        decreases count - i,
    {
        let len = read_le16(p, 4 * i) as usize;
        let rc = read_le16(p, 4 * i + 2);
        if len > d.len() || off > d.len() - len {
            assert(pool_tail(p@, d@, i as int, off as int) == Err::<Seq<GPoolEntry>, MsiError>(
                MsiError::StringPoolMismatch,
            ));
            return Err(MsiError::StringPoolMismatch);
        }
        let text = crate::bytes::copy_range(d, off, off + len);
        let ghost pre = pool_views(v@);
        v.push(PoolEntry { text, refcount: rc });
        proof {
            assert(pool_views(v@) =~= pre + seq![
                GPoolEntry { text: d@.subrange(off as int, off as int + len as int), refcount: rc },
            ]);
            assert(forall|a: Seq<GPoolEntry>, b: Seq<GPoolEntry>, c: Seq<GPoolEntry>|
                (a + b) + c =~= a + (b + c));
        }
        i += 1;
        off += len;
    }
    assert(pool_tail(p@, d@, i as int, off as int) == Ok::<Seq<GPoolEntry>, MsiError>(seq![]));
    assert(pool_views(v@) + Seq::<GPoolEntry>::empty() =~= pool_views(v@));
    Ok(v)
}

/// Reads the codepage recorded in the pool's first pair.
pub fn pool_codepage(p: &Vec<u8>) -> (r: u16)
    requires
        p@.len() >= 4,
    ensures
        r == pool_codepage_spec(p@),
{
    read_le16(p, 0)
}

} // verus!
