//! Container reader: header validation, allocation-table construction and
//! bounded sector-chain traversal.
use vstd::prelude::*;
use crate::MsiError;
use crate::bytes::{le16, le32, le64, u32s_of, read_le16, read_le32, read_u32s, copy_range};

verus! {

/// Sector indices at or above this value are reserved markers, not sectors.
pub const RESERVED_SECTOR: u32 = 0xFFFFFFFA;

/// Marks the end of a sector chain.
pub const END_OF_CHAIN: u32 = 0xFFFFFFFE;

/// Marks a free allocation-table entry.
pub const FREE_SECTOR: u32 = 0xFFFFFFFF;

/// The fixed header signature.
pub open spec fn magic_ok(d: Seq<u8>) -> bool {
    &&& d[0] == 0xD0
    &&& d[1] == 0xCF
    &&& d[2] == 0x11
    &&& d[3] == 0xE0
    &&& d[4] == 0xA1
    &&& d[5] == 0xB1
    &&& d[6] == 0x1A
    &&& d[7] == 0xE1
}

/// A container is accepted when it holds a full header, the signature
/// matches, and the sector-size exponent is 9 or 12.
pub open spec fn header_ok(d: Seq<u8>) -> bool {
    &&& d.len() >= 512
    &&& magic_ok(d)
    &&& (le16(d, 30) == 9 || le16(d, 30) == 12)
}

/// The fixed-size header fields the reader relies on.
pub struct Header {
    /// Sector size in bytes: 512 or 4096.
    pub sector_size: usize,
    pub num_fat_sectors: u32,
    pub first_dir_sector: u32,
    pub mini_cutoff: u32,
    pub first_minifat_sector: u32,
    pub num_minifat_sectors: u32,
    pub first_difat_sector: u32,
    pub num_difat_sectors: u32,
}

/// Reads and validates the header.
pub fn parse_header(d: &Vec<u8>) -> (r: Result<Header, MsiError>)
    ensures
        r is Ok <==> header_ok(d@),
        r is Err ==> r == Err::<Header, MsiError>(MsiError::InvalidContainer),
        r matches Ok(h) ==> {
            &&& h.sector_size == (if le16(d@, 30) == 9 {
                512int
            } else {
                4096int
            })
            &&& h.num_fat_sectors == le32(d@, 44)
            &&& h.first_dir_sector == le32(d@, 48)
            &&& h.mini_cutoff == le32(d@, 56)
            &&& h.first_minifat_sector == le32(d@, 60)
            &&& h.num_minifat_sectors == le32(d@, 64)
            &&& h.first_difat_sector == le32(d@, 68)
            &&& h.num_difat_sectors == le32(d@, 72)
        },
{
    if d.len() < 512 {
        return Err(MsiError::InvalidContainer);
    }
    if !(d[0] == 0xD0 && d[1] == 0xCF && d[2] == 0x11 && d[3] == 0xE0 && d[4] == 0xA1 && d[5]
        == 0xB1 && d[6] == 0x1A && d[7] == 0xE1) {
        return Err(MsiError::InvalidContainer);
    }
    let shift = read_le16(d, 30);
    if shift != 9 && shift != 12 {
        return Err(MsiError::InvalidContainer);
    }
    let sector_size: usize = if shift == 9 {
        512
    } else {
        4096
    };
    Ok(
        Header {
            sector_size,
            num_fat_sectors: read_le32(d, 44),
            first_dir_sector: read_le32(d, 48),
            mini_cutoff: read_le32(d, 56),
            first_minifat_sector: read_le32(d, 60),
            first_difat_sector: read_le32(d, 68),
            num_minifat_sectors: read_le32(d, 64),
            num_difat_sectors: read_le32(d, 72),
        },
    )
}

/// Whether sector `s` of a sector source lies fully inside it.
/// `base` is the byte offset of sector 0 and `ssz` the sector size.
pub open spec fn sector_in_range(src: Seq<u8>, ssz: int, base: int, s: u32) -> bool {
    base + (s as int + 1) * ssz <= src.len()
}

/// The payload bytes of sector `s`.
pub open spec fn sector_payload(src: Seq<u8>, ssz: int, base: int, s: u32) -> Seq<u8> {
    src.subrange(base + s as int * ssz, base + (s as int + 1) * ssz)
}

/// The trailing identifier entries of the difference table, read from its
/// own sector chain; each sector contributes all but its last entry, which
/// links to the next sector.
pub open spec fn difat_tail(d: Seq<u8>, ssz: int, sector: u32, fuel: nat) -> Result<
    Seq<u32>,
    MsiError,
>
    decreases fuel,
{
    if sector >= RESERVED_SECTOR {
        Ok(seq![])
    } else if fuel == 0 {
        Err(MsiError::InvalidContainer)
    } else if !sector_in_range(d, ssz, ssz, sector) {
        Err(MsiError::InvalidContainer)
    } else {
        let entries = u32s_of(sector_payload(d, ssz, ssz, sector));
        match difat_tail(d, ssz, entries[entries.len() - 1], (fuel - 1) as nat) {
            Ok(rest) => Ok(entries.take(entries.len() - 1) + rest),
            Err(e) => Err(e),
        }
    }
}

/// The full list of allocation-table sector identifiers: the 109 header
/// entries followed by the chained difference-table entries.
pub open spec fn difat_list(d: Seq<u8>, ssz: int) -> Result<Seq<u32>, MsiError> {
    match difat_tail(d, ssz, le32(d, 68), le32(d, 72) as nat) {
        Ok(rest) => Ok(Seq::new(109, |i: int| le32(d, 76 + 4 * i)) + rest),
        Err(e) => Err(e),
    }
}

/// The allocation table named by a list of sector identifiers: free
/// entries are skipped, and every named sector must lie in the file.
pub open spec fn fat_of(d: Seq<u8>, ssz: int, list: Seq<u32>) -> Result<Seq<u32>, MsiError>
    decreases list.len(),
{
    if list.len() == 0 {
        Ok(seq![])
    } else if list[0] >= RESERVED_SECTOR {
        fat_of(d, ssz, list.skip(1))
    } else if !sector_in_range(d, ssz, ssz, list[0]) {
        Err(MsiError::InvalidContainer)
    } else {
        match fat_of(d, ssz, list.skip(1)) {
            Ok(rest) => Ok(u32s_of(sector_payload(d, ssz, ssz, list[0])) + rest),
            Err(e) => Err(e),
        }
    }
}

/// Reads the sector payload `src[base + s*ssz ..][..ssz]`.
fn read_sector(src: &Vec<u8>, ssz: usize, base: usize, s: u32) -> (r: Vec<u8>)
    requires
        sector_in_range(src@, ssz as int, base as int, s),
        ssz >= 1,
    ensures
        r@ == sector_payload(src@, ssz as int, base as int, s),
{
    let _n = src.len();
    assert(base + (s as int + 1) * ssz == base + s as int * ssz + ssz) by (nonlinear_arith);
    assert(s as int * ssz >= 0) by (nonlinear_arith);
    let off: usize = base + (s as usize) * ssz;
    copy_range(src, off, off + ssz)
}

/// Checks `sector_in_range` without overflowing.
fn sector_in_range_exec(src: &Vec<u8>, ssz: usize, base: usize, s: u32) -> (r: bool)
    requires
        ssz <= 4096,
    ensures
        r == sector_in_range(src@, ssz as int, base as int, s),
{
    proof {
        assert((s as int + 1) * (ssz as int) <= 0x1_0000_0000 * 4096) by (nonlinear_arith)
            requires
                s <= u32::MAX && 0 <= ssz <= 4096,
        ;
    }
    let prod: u64 = (s as u64 + 1) * ssz as u64;
    let need: u128 = base as u128 + prod as u128;
    need <= src.len() as u128
}

/// Collects the difference-table sector identifiers.
pub(crate) fn read_difat_tail(d: &Vec<u8>, ssz: usize, first: u32, count: u32) -> (r: Result<
    Vec<u32>,
    MsiError,
>)
    requires
        ssz == 512 || ssz == 4096,
        d@.len() >= 512,
    ensures
        match difat_tail(d@, ssz as int, first, count as nat) {
            Ok(list) => r matches Ok(v) && v@ == list,
            Err(e) => r == Err::<Vec<u32>, MsiError>(e),
        },
{
    let mut out: Vec<u32> = Vec::new();
    let mut sector = first;
    let mut fuel = count;
    assert(out@ + Seq::<u32>::empty() =~= Seq::<u32>::empty());
    loop
        invariant
            ssz == 512 || ssz == 4096,
            d@.len() >= 512,
            match difat_tail(d@, ssz as int, first, count as nat) {
                Ok(list) => difat_tail(d@, ssz as int, sector, fuel as nat) matches Ok(rest)
                    && out@ + rest == list,
                Err(e) => difat_tail(d@, ssz as int, sector, fuel as nat) == Err::<
                    Seq<u32>,
                    MsiError,
                >(e),
            },
        decreases fuel,
    {
        if sector >= RESERVED_SECTOR {
            assert(difat_tail(d@, ssz as int, sector, fuel as nat) == Ok::<Seq<u32>, MsiError>(
                seq![],
            ));
            assert(out@ + seq![] =~= out@);
            return Ok(out);
        }
        if fuel == 0 {
            return Err(MsiError::InvalidContainer);
        }
        if !sector_in_range_exec(d, ssz, ssz, sector) {
            return Err(MsiError::InvalidContainer);
        }
        let payload = read_sector(d, ssz, ssz, sector);
        let entries = read_u32s(&payload);
        assert(entries@.len() == ssz / 4 >= 2);
        let next = entries[entries.len() - 1];
        let ghost pre = out@;
        let mut k: usize = 0;
        let m = entries.len() - 1;
        while k < m
            invariant
                m == entries@.len() - 1,
                k <= m,
                out@ == pre + entries@.take(k as int),
            decreases m - k,
        {
            out.push(entries[k]);
            k += 1;
            assert(entries@.take(k as int) =~= entries@.take(k - 1).push(entries@[k - 1]));
            assert(pre + entries@.take(k - 1).push(entries@[k - 1]) =~= (pre + entries@.take(
                k - 1,
            )).push(entries@[k - 1]));
        }
        proof {
            let old_rest = difat_tail(d@, ssz as int, sector, fuel as nat);
            assert(old_rest matches Ok(rr) ==> rr == entries@.take(entries@.len() - 1)
                + (difat_tail(d@, ssz as int, next, (fuel - 1) as nat)->Ok_0));
            assert(forall|a: Seq<u32>, b: Seq<u32>, c: Seq<u32>| (a + b) + c =~= a + (b + c));
        }
        sector = next;
        fuel = fuel - 1;
    }
}

/// Builds an allocation table from a list of sector identifiers.
pub(crate) fn read_fat_sectors(d: &Vec<u8>, ssz: usize, list: &Vec<u32>) -> (r: Result<Vec<u32>, MsiError>)
    requires
        ssz == 512 || ssz == 4096,
    ensures
        match fat_of(d@, ssz as int, list@) {
            Ok(fat) => r matches Ok(v) && v@ == fat,
            Err(e) => r == Err::<Vec<u32>, MsiError>(e),
        },
{
    let _n = d.len();
    let mut out: Vec<u32> = Vec::new();
    let mut i: usize = 0;
    let n = list.len();
    assert(list@.skip(0) =~= list@);
    while i < n
        invariant
            ssz == 512 || ssz == 4096,
            n == list@.len(),
            i <= n,
            match fat_of(d@, ssz as int, list@) {
                Ok(fat) => fat_of(d@, ssz as int, list@.skip(i as int)) matches Ok(rest) && out@
                    + rest == fat,
                Err(e) => fat_of(d@, ssz as int, list@.skip(i as int)) == Err::<
                    Seq<u32>,
                    MsiError,
                >(e),
            },
        decreases n - i,
    {
        let s = list[i];
        assert(list@.skip(i as int)[0] == list@[i as int]);
        assert(list@.skip(i as int).skip(1) =~= list@.skip(i + 1));
        if s >= RESERVED_SECTOR {
            i += 1;
            continue ;
        }
        if !sector_in_range_exec(d, ssz, ssz, s) {
            return Err(MsiError::InvalidContainer);
        }
        let payload = read_sector(d, ssz, ssz, s);
        let mut entries = read_u32s(&payload);
        let ghost pre = out@;
        out.append(&mut entries);
        proof {
            assert(forall|a: Seq<u32>, b: Seq<u32>, c: Seq<u32>| (a + b) + c =~= a + (b + c));
        }
        i += 1;
    }
    assert(list@.skip(n as int) =~= Seq::<u32>::empty());
    assert(out@ + Seq::<u32>::empty() =~= out@);
    Ok(out)
}

/// One bounded chain walk: reads `rem` sectors starting at `cur`,
/// following the allocation table, with a visited set that turns a
/// revisit into `ChainCycle` instead of an endless loop.
pub open spec fn walk_spec(
    src: Seq<u8>,
    fat: Seq<u32>,
    ssz: int,
    base: int,
    visited: Seq<bool>,
    cur: u32,
    rem: nat,
) -> Result<Seq<u8>, MsiError>
    decreases rem,
{
    if rem == 0 {
        Ok(seq![])
    } else if cur >= RESERVED_SECTOR {
        Err(MsiError::StreamTruncated)
    } else if !(cur < fat.len() && cur < visited.len() && sector_in_range(src, ssz, base, cur)) {
        Err(MsiError::InvalidContainer)
    } else if visited[cur as int] {
        Err(MsiError::ChainCycle)
    } else {
        match walk_spec(
            src,
            fat,
            ssz,
            base,
            visited.update(cur as int, true),
            fat[cur as int],
            (rem - 1) as nat,
        ) {
            Ok(rest) => Ok(sector_payload(src, ssz, base, cur) + rest),
            Err(e) => Err(e),
        }
    }
}

/// A chain walk over a fresh visited set.
pub open spec fn chain_bytes(
    src: Seq<u8>,
    fat: Seq<u32>,
    ssz: int,
    base: int,
    start: u32,
    nsec: nat,
) -> Result<Seq<u8>, MsiError> {
    walk_spec(src, fat, ssz, base, Seq::new(fat.len(), |i: int| false), start, nsec)
}

/// A successful walk returns exactly `rem` sectors of payload.
pub proof fn lemma_walk_len(
    src: Seq<u8>,
    fat: Seq<u32>,
    ssz: int,
    base: int,
    visited: Seq<bool>,
    cur: u32,
    rem: nat,
)
    requires
        ssz >= 0,
        base >= 0,
        walk_spec(src, fat, ssz, base, visited, cur, rem) is Ok,
    ensures
        walk_spec(src, fat, ssz, base, visited, cur, rem)->Ok_0.len() == rem * ssz,
    decreases rem,
{
    if rem == 0 {
        assert(rem * ssz == 0) by (nonlinear_arith)
            requires
                rem == 0,
        ;
    } else {
        lemma_walk_len(
            src,
            fat,
            ssz,
            base,
            visited.update(cur as int, true),
            fat[cur as int],
            (rem - 1) as nat,
        );
        assert((cur as int + 1) * ssz - cur as int * ssz == ssz) by (nonlinear_arith);
        assert(cur as int * ssz >= 0) by (nonlinear_arith)
            requires
                ssz >= 0 && cur as int >= 0,
        ;
        assert((rem - 1) * ssz + ssz == rem * ssz) by (nonlinear_arith)
            requires
                rem >= 1,
        ;
    }
}

/// Walks a chain of exactly `nsec` sectors and concatenates their payloads.
pub fn walk_chain(src: &Vec<u8>, fat: &Vec<u32>, ssz: usize, base: usize, start: u32, nsec: u32)
    -> (r: Result<Vec<u8>, MsiError>)
    requires
        ssz == 512 || ssz == 4096 || ssz == 64,
        base <= src@.len(),
    ensures
        match chain_bytes(src@, fat@, ssz as int, base as int, start, nsec as nat) {
            Ok(b) => r matches Ok(v) && v@ == b,
            Err(e) => r == Err::<Vec<u8>, MsiError>(e),
        },
{
    let mut visited: Vec<bool> = Vec::new();
    let mut k: usize = 0;
    let nf = fat.len();
    while k < nf
        invariant
            k <= nf,
            visited@ =~= Seq::new(k as nat, |i: int| false),
        decreases nf - k,
    {
        visited.push(false);
        k += 1;
        assert(visited@ =~= Seq::new(k as nat, |i: int| false));
    }
    let mut acc: Vec<u8> = Vec::new();
    let mut cur = start;
    let mut rem = nsec;
    assert(visited@ =~= Seq::new(fat@.len(), |i: int| false));
    assert(acc@ + Seq::<u8>::empty() =~= Seq::<u8>::empty());
    loop
        invariant
            ssz == 512 || ssz == 4096 || ssz == 64,
            base <= src@.len(),
            visited@.len() == fat@.len(),
            match chain_bytes(src@, fat@, ssz as int, base as int, start, nsec as nat) {
                Ok(b) => walk_spec(
                    src@,
                    fat@,
                    ssz as int,
                    base as int,
                    visited@,
                    cur,
                    rem as nat,
                ) matches Ok(rest) && acc@ + rest == b,
                Err(e) => walk_spec(src@, fat@, ssz as int, base as int, visited@, cur, rem as nat)
                    == Err::<Seq<u8>, MsiError>(e),
            },
        decreases rem,
    {
        if rem == 0 {
            assert(walk_spec(src@, fat@, ssz as int, base as int, visited@, cur, rem as nat)
                == Ok::<Seq<u8>, MsiError>(seq![]));
            assert(acc@ + Seq::<u8>::empty() =~= acc@);
            return Ok(acc);
        }
        if cur >= RESERVED_SECTOR {
            assert(walk_spec(src@, fat@, ssz as int, base as int, visited@, cur, rem as nat)
                == Err::<Seq<u8>, MsiError>(MsiError::StreamTruncated));
            return Err(MsiError::StreamTruncated);
        }
        if !((cur as usize) < fat.len() && sector_in_range_exec(src, ssz, base, cur)) {
            assert(walk_spec(src@, fat@, ssz as int, base as int, visited@, cur, rem as nat)
                == Err::<Seq<u8>, MsiError>(MsiError::InvalidContainer));
            return Err(MsiError::InvalidContainer);
        }
        if visited[cur as usize] {
            assert(walk_spec(src@, fat@, ssz as int, base as int, visited@, cur, rem as nat)
                == Err::<Seq<u8>, MsiError>(MsiError::ChainCycle));
            return Err(MsiError::ChainCycle);
        }
        let ghost prev_visited = visited@;
        let ghost prev_cur = cur;
        let ghost prev_rem = rem;
        let mut payload = read_sector(src, ssz, base, cur);
        let ghost pre = acc@;
        acc.append(&mut payload);
        visited.set(cur as usize, true);
        let next = fat[cur as usize];
        cur = next;
        rem = rem - 1;
        proof {
            assert(visited@ == prev_visited.update(prev_cur as int, true));
            assert(walk_spec(src@, fat@, ssz as int, base as int, prev_visited, prev_cur, prev_rem as nat)
                == (match walk_spec(src@, fat@, ssz as int, base as int, visited@, cur, rem as nat) {
                    Ok(rest) => Ok::<Seq<u8>, MsiError>(sector_payload(src@, ssz as int, base as int, prev_cur) + rest),
                    Err(e) => Err::<Seq<u8>, MsiError>(e),
                }));
            assert(forall|a: Seq<u8>, b: Seq<u8>, c: Seq<u8>| (a + b) + c =~= a + (b + c));
        }
    }
}


/// A full chain walk: follows the allocation table from `cur` until the
/// end-of-chain marker, with a visited set that turns a revisit into
/// `ChainCycle`.
pub open spec fn walk_full_spec(
    src: Seq<u8>,
    fat: Seq<u32>,
    ssz: int,
    base: int,
    visited: Seq<bool>,
    cur: u32,
    fuel: nat,
) -> Result<Seq<u8>, MsiError>
    decreases fuel,
{
    if cur == END_OF_CHAIN {
        Ok(seq![])
    } else if cur >= RESERVED_SECTOR {
        Err(MsiError::InvalidContainer)
    } else if fuel == 0 {
        Err(MsiError::ChainCycle)
    } else if !(cur < fat.len() && cur < visited.len() && sector_in_range(src, ssz, base, cur)) {
        Err(MsiError::InvalidContainer)
    } else if visited[cur as int] {
        Err(MsiError::ChainCycle)
    } else {
        match walk_full_spec(
            src,
            fat,
            ssz,
            base,
            visited.update(cur as int, true),
            fat[cur as int],
            (fuel - 1) as nat,
        ) {
            Ok(rest) => Ok(sector_payload(src, ssz, base, cur) + rest),
            Err(e) => Err(e),
        }
    }
}

/// A full chain walk over a fresh visited set, with enough fuel to visit
/// every sector once.
pub open spec fn full_chain_bytes(src: Seq<u8>, fat: Seq<u32>, ssz: int, base: int, start: u32)
    -> Result<Seq<u8>, MsiError> {
    walk_full_spec(
        src,
        fat,
        ssz,
        base,
        Seq::new(fat.len(), |i: int| false),
        start,
        (fat.len() + 1) as nat,
    )
}

/// Walks a chain to its end-of-chain marker and concatenates the payloads.
pub fn walk_chain_to_end(src: &Vec<u8>, fat: &Vec<u32>, ssz: usize, base: usize, start: u32) -> (r:
    Result<Vec<u8>, MsiError>)
    requires
        ssz == 512 || ssz == 4096 || ssz == 64,
        base <= src@.len(),
    ensures
        match full_chain_bytes(src@, fat@, ssz as int, base as int, start) {
            Ok(b) => r matches Ok(v) && v@ == b,
            Err(e) => r == Err::<Vec<u8>, MsiError>(e),
        },
{
    let mut visited: Vec<bool> = Vec::new();
    let mut k: usize = 0;
    let nf = fat.len();
    while k < nf
        invariant
            k <= nf,
            visited@ =~= Seq::new(k as nat, |i: int| false),
        decreases nf - k,
    {
        visited.push(false);
        k += 1;
        assert(visited@ =~= Seq::new(k as nat, |i: int| false));
    }
    assert(visited@ =~= Seq::new(fat@.len(), |i: int| false));
    let mut acc: Vec<u8> = Vec::new();
    let mut cur = start;
    let mut fuel: u128 = fat.len() as u128 + 1;
    assert(acc@ + Seq::<u8>::empty() =~= Seq::<u8>::empty());
    loop
        invariant
            ssz == 512 || ssz == 4096 || ssz == 64,
            base <= src@.len(),
            visited@.len() == fat@.len(),
            match full_chain_bytes(src@, fat@, ssz as int, base as int, start) {
                Ok(b) => walk_full_spec(
                    src@,
                    fat@,
                    ssz as int,
                    base as int,
                    visited@,
                    cur,
                    fuel as nat,
                ) matches Ok(rest) && acc@ + rest == b,
                Err(e) => walk_full_spec(
                    src@,
                    fat@,
                    ssz as int,
                    base as int,
                    visited@,
                    cur,
                    fuel as nat,
                ) == Err::<Seq<u8>, MsiError>(e),
            },
        decreases fuel,
    {
        if cur == END_OF_CHAIN {
            assert(walk_full_spec(src@, fat@, ssz as int, base as int, visited@, cur, fuel as nat)
                == Ok::<Seq<u8>, MsiError>(seq![]));
            assert(acc@ + Seq::<u8>::empty() =~= acc@);
            return Ok(acc);
        }
        if cur >= RESERVED_SECTOR {
            return Err(MsiError::InvalidContainer);
        }
        if fuel == 0 {
            return Err(MsiError::ChainCycle);
        }
        if !((cur as usize) < fat.len() && sector_in_range_exec(src, ssz, base, cur)) {
            return Err(MsiError::InvalidContainer);
        }
        if visited[cur as usize] {
            return Err(MsiError::ChainCycle);
        }
        let ghost prev_visited = visited@;
        let ghost prev_cur = cur;
        let ghost prev_fuel = fuel;
        let mut payload = read_sector(src, ssz, base, cur);
        acc.append(&mut payload);
        visited.set(cur as usize, true);
        let next = fat[cur as usize];
        cur = next;
        fuel = fuel - 1;
        proof {
            assert(visited@ == prev_visited.update(prev_cur as int, true));
            assert(walk_full_spec(
                src@,
                fat@,
                ssz as int,
                base as int,
                prev_visited,
                prev_cur,
                prev_fuel as nat,
            ) == (match walk_full_spec(
                src@,
                fat@,
                ssz as int,
                base as int,
                visited@,
                cur,
                fuel as nat,
            ) {
                Ok(rest) => Ok::<Seq<u8>, MsiError>(
                    sector_payload(src@, ssz as int, base as int, prev_cur) + rest,
                ),
                Err(e) => Err::<Seq<u8>, MsiError>(e),
            }));
            assert(forall|a: Seq<u8>, b: Seq<u8>, c: Seq<u8>| (a + b) + c =~= a + (b + c));
        }
    }
}

/// The number of sectors a stream of `size` bytes occupies.
pub open spec fn ceil_div(size: int, ssz: int) -> int {
    (size + ssz - 1) / ssz
}

/// Reading a stream of declared `size` from its chain: exactly
/// `ceil_div(size, ssz)` sectors are visited and the result is shortened
/// to the declared length; a chain that ends early is truncated.
pub open spec fn stream_read_spec(
    src: Seq<u8>,
    fat: Seq<u32>,
    ssz: int,
    base: int,
    start: u32,
    size: int,
) -> Result<Seq<u8>, MsiError> {
    if size > src.len() || ceil_div(size, ssz) > u32::MAX {
        Err(MsiError::StreamTruncated)
    } else {
        match chain_bytes(src, fat, ssz, base, start, ceil_div(size, ssz) as nat) {
            Ok(b) => Ok(b.take(size)),
            Err(e) => Err(e),
        }
    }
}

/// Materializes a stream of declared `size` bytes from its chain.
pub fn read_stream_bytes(
    src: &Vec<u8>,
    fat: &Vec<u32>,
    ssz: usize,
    base: usize,
    start: u32,
    size: usize,
) -> (r: Result<Vec<u8>, MsiError>)
    requires
        ssz == 512 || ssz == 4096 || ssz == 64,
        base <= src@.len(),
    ensures
        match stream_read_spec(src@, fat@, ssz as int, base as int, start, size as int) {
            Ok(b) => r matches Ok(v) && v@ == b && v@.len() == size,
            Err(e) => r == Err::<Vec<u8>, MsiError>(e),
        },
{
    if size > src.len() {
        return Err(MsiError::StreamTruncated);
    }
    let nsec128: u128 = (size as u128 + ssz as u128 - 1) / ssz as u128;
    assert(nsec128 == ceil_div(size as int, ssz as int));
    if nsec128 > u32::MAX as u128 {
        return Err(MsiError::StreamTruncated);
    }
    let nsec: u32 = nsec128 as u32;
    match walk_chain(src, fat, ssz, base, start, nsec) {
        Ok(b) => {
            proof {
                lemma_walk_len(
                    src@,
                    fat@,
                    ssz as int,
                    base as int,
                    Seq::new(fat@.len(), |i: int| false),
                    start,
                    nsec as nat,
                );
                assert(nsec * ssz >= size) by (nonlinear_arith)
                    requires
                        ssz >= 1 && size >= 0 && nsec == (size as int + ssz as int - 1) / (ssz as int),
                ;
            }
            let out = copy_range(&b, 0, size);
            assert(out@ =~= b@.take(size as int));
            Ok(out)
        },
        Err(e) => Err(e),
    }
}

/// A step into an already visited sector fails with `ChainCycle` rather
/// than looping.
pub proof fn lemma_walk_cycle(
    src: Seq<u8>,
    fat: Seq<u32>,
    ssz: int,
    base: int,
    visited: Seq<bool>,
    cur: u32,
    rem: nat,
)
    requires
        rem > 0,
        cur < RESERVED_SECTOR,
        cur < fat.len(),
        cur < visited.len(),
        sector_in_range(src, ssz, base, cur),
        visited[cur as int],
    ensures
        walk_spec(src, fat, ssz, base, visited, cur, rem) == Err::<Seq<u8>, MsiError>(
            MsiError::ChainCycle,
        ),
{
}

/// A successful stream read visits exactly `ceil_div(size, ssz)` sectors
/// of the chain and shortens their payload to the declared length.
pub proof fn lemma_stream_read_sector_count(
    src: Seq<u8>,
    fat: Seq<u32>,
    ssz: int,
    base: int,
    start: u32,
    size: int,
)
    requires
        ssz >= 1,
        base >= 0,
        size >= 0,
        stream_read_spec(src, fat, ssz, base, start, size) is Ok,
    ensures
        chain_bytes(src, fat, ssz, base, start, ceil_div(size, ssz) as nat) matches Ok(cb) && {
            &&& cb.len() == ceil_div(size, ssz) * ssz
            &&& stream_read_spec(src, fat, ssz, base, start, size)->Ok_0 == cb.take(size)
        },
{
    lemma_walk_len(
        src,
        fat,
        ssz,
        base,
        Seq::new(fat.len(), |i: int| false),
        start,
        ceil_div(size, ssz) as nat,
    );
}

} // verus!
