//! The opened container: header, allocation tables, directory arena and
//! mini stream materialized once, with stream extraction and the flat
//! stream listing on top.
use vstd::prelude::*;
use crate::MsiError;
use crate::bytes::{le16, le32, read_u32s, read_le32};
use crate::container::{
    header_ok, difat_list, fat_of, full_chain_bytes, stream_read_spec, parse_header,
    walk_chain_to_end, read_stream_bytes,
};
use crate::directory::{
    DirEntry, GDirEntry, record_ok, record_spec, parse_entries, inorder_walk, inorder_spec,
    views_of,
    TYPE_ROOT, TYPE_STORAGE, TYPE_STREAM,
};
use crate::ident::decode_name;

verus! {

/// The sector size selected by the header's exponent.
pub open spec fn ssz_spec(d: Seq<u8>) -> int {
    if le16(d, 30) == 9 {
        512
    } else {
        4096
    }
}

/// The allocation table the header's difference table names.
pub open spec fn fat_spec(d: Seq<u8>) -> Result<Seq<u32>, MsiError> {
    match difat_list(d, ssz_spec(d)) {
        Ok(list) => fat_of(d, ssz_spec(d), list),
        Err(e) => Err(e),
    }
}

/// The directory chain's bytes.
pub open spec fn dir_bytes_spec(d: Seq<u8>) -> Result<Seq<u8>, MsiError> {
    match fat_spec(d) {
        Ok(fat) => full_chain_bytes(d, fat, ssz_spec(d), ssz_spec(d), le32(d, 48)),
        Err(e) => Err(e),
    }
}

/// Whether a container opens, and with which error it is refused: the
/// header must validate and leave room for one sector, the allocation
/// table and the directory chain must build, every directory record must
/// be acceptable, the root must exist with the root type, and the mini
/// stream must read.
pub open spec fn open_check(d: Seq<u8>) -> Result<(), MsiError> {
    if !header_ok(d) {
        Err(MsiError::InvalidContainer)
    } else if d.len() < ssz_spec(d) {
        Err(MsiError::InvalidContainer)
    } else {
        match fat_spec(d) {
            Err(e) => Err(e),
            Ok(fat) => match full_chain_bytes(d, fat, ssz_spec(d), ssz_spec(d), le32(d, 48)) {
                Err(e) => Err(e),
                Ok(db) => if !(forall|k: int| 0 <= k < db.len() / 128 ==> #[trigger] record_ok(db, k)) {
                    Err(MsiError::MalformedDirectory)
                } else if db.len() / 128 == 0 {
                    Err(MsiError::MissingRoot)
                } else if record_spec(db, 0).obj_type != TYPE_ROOT {
                    Err(MsiError::MissingRoot)
                } else if record_spec(db, 0).size > usize::MAX {
                    Err(MsiError::StreamTruncated)
                } else {
                    match stream_read_spec(
                        d,
                        fat,
                        ssz_spec(d),
                        ssz_spec(d),
                        record_spec(db, 0).start,
                        record_spec(db, 0).size as int,
                    ) {
                        Err(e) => Err(e),
                        Ok(ms) => Ok(()),
                    }
                },
            },
        }
    }
}

/// An opened container.
pub struct Container {
    /// The whole file.
    pub data: Vec<u8>,
    /// 512 or 4096 bytes per sector.
    pub sector_size: usize,
    /// Streams shorter than this live in the mini stream.
    pub mini_cutoff: u32,
    /// The sector allocation table.
    pub fat: Vec<u32>,
    /// The mini-sector allocation table.
    pub minifat: Vec<u32>,
    /// The root entry's stream, which carries all mini sectors.
    pub mini_stream: Vec<u8>,
    /// The directory arena; entry 0 is the root.
    pub entries: Vec<DirEntry>,
}

impl Container {
    /// What every method relies on: a supported sector size that fits the
    /// file, and a root entry.
    pub open spec fn wf(self) -> bool {
        &&& (self.sector_size == 512 || self.sector_size == 4096)
        &&& self.sector_size <= self.data@.len()
        &&& self.entries@.len() >= 1
        &&& self.entries@[0]@.obj_type == TYPE_ROOT
    }

    /// Validates the header and materializes the allocation tables, the
    /// directory arena and the mini stream.
    pub fn open(data: Vec<u8>) -> (r: Result<Container, MsiError>)
        ensures
            r is Ok <==> open_check(data@) is Ok,
            r is Err ==> r == Err::<Container, MsiError>(open_check(data@)->Err_0),
            r matches Ok(c) ==> {
                &&& c.wf()
                &&& header_ok(data@)
                &&& c.data@ == data@
                &&& c.sector_size == ssz_spec(data@)
                &&& c.mini_cutoff == le32(data@, 56)
                &&& fat_spec(data@) matches Ok(f) && c.fat@ == f
                &&& dir_bytes_spec(data@) matches Ok(db) && {
                    &&& c.entries@.len() == db.len() / 128
                    &&& forall|k: int|
                        0 <= k < c.entries@.len() ==> c.entries@[k]@ == record_spec(db, k)
                }
                &&& stream_read_spec(
                    data@,
                    c.fat@,
                    c.sector_size as int,
                    c.sector_size as int,
                    c.entries@[0]@.start,
                    c.entries@[0]@.size as int,
                ) matches Ok(ms) && c.mini_stream@ == ms
            },
    {
        let header = match parse_header(&data) {
            Ok(h) => h,
            Err(e) => {
                assert(open_check(data@) == Err::<(), MsiError>(MsiError::InvalidContainer));
                return Err(e);
            },
        };
        let ssz = header.sector_size;
        if data.len() < ssz {
            assert(open_check(data@) == Err::<(), MsiError>(MsiError::InvalidContainer));
            return Err(MsiError::InvalidContainer);
        }
        let mut difat = read_header_difat(&data);
        let mut tail = match crate::container::read_difat_tail(
            &data,
            ssz,
            header.first_difat_sector,
            header.num_difat_sectors,
        ) {
            Ok(t) => t,
            Err(e) => {
                assert(fat_spec(data@) == Err::<Seq<u32>, MsiError>(e));
                assert(open_check(data@) == Err::<(), MsiError>(e));
                return Err(e);
            },
        };
        difat.append(&mut tail);
        proof {
            assert(difat@ == difat_list(data@, ssz as int)->Ok_0);
        }
        let fat = match crate::container::read_fat_sectors(&data, ssz, &difat) {
            Ok(f) => f,
            Err(e) => {
                assert(fat_spec(data@) == Err::<Seq<u32>, MsiError>(e));
                assert(open_check(data@) == Err::<(), MsiError>(e));
                return Err(e);
            },
        };
        assert(fat_spec(data@) == Ok::<Seq<u32>, MsiError>(fat@));
        let dir_bytes = match walk_chain_to_end(&data, &fat, ssz, ssz, header.first_dir_sector) {
            Ok(b) => b,
            Err(e) => {
                assert(open_check(data@) == Err::<(), MsiError>(e));
                return Err(e);
            },
        };
        let entries = match parse_entries(&dir_bytes) {
            Ok(v) => v,
            Err(e) => {
                assert(open_check(data@) == Err::<(), MsiError>(MsiError::MalformedDirectory));
                return Err(e);
            },
        };
        if entries.len() == 0 {
            assert(open_check(data@) == Err::<(), MsiError>(MsiError::MissingRoot));
            return Err(MsiError::MissingRoot);
        }
        if entries[0].obj_type != TYPE_ROOT {
            assert(entries@[0]@ == record_spec(dir_bytes@, 0));
            assert(open_check(data@) == Err::<(), MsiError>(MsiError::MissingRoot));
            return Err(MsiError::MissingRoot);
        }
        proof {
            assert(header.num_minifat_sectors as int * ssz as int <= 0x1_0000_0000 * 4096)
                by (nonlinear_arith)
                requires
                    header.num_minifat_sectors <= u32::MAX && 0 <= ssz <= 4096,
            ;
        }
        let minifat_len64: u64 = header.num_minifat_sectors as u64 * ssz as u64;
        let minifat_len: usize = if minifat_len64 > usize::MAX as u64 {
            0
        } else {
            minifat_len64 as usize
        };
        let minifat_bytes = match read_stream_bytes(
            &data,
            &fat,
            ssz,
            ssz,
            header.first_minifat_sector,
            minifat_len,
        ) {
            Ok(b) => b,
            Err(_) => Vec::new(),
        };
        let minifat = read_u32s(&minifat_bytes);
        let root_start = entries[0].start;
        let root_size64 = entries[0].size;
        assert(entries@[0]@ == record_spec(dir_bytes@, 0));
        if root_size64 > usize::MAX as u64 {
            assert(open_check(data@) == Err::<(), MsiError>(MsiError::StreamTruncated));
            return Err(MsiError::StreamTruncated);
        }
        let mini_stream = match read_stream_bytes(
            &data,
            &fat,
            ssz,
            ssz,
            root_start,
            root_size64 as usize,
        ) {
            Ok(b) => b,
            Err(e) => {
                assert(open_check(data@) == Err::<(), MsiError>(e));
                return Err(e);
            },
        };
        assert(open_check(data@) is Ok);
        Ok(
            Container {
                data,
                sector_size: ssz,
                mini_cutoff: header.mini_cutoff,
                fat,
                minifat,
                mini_stream,
                entries,
            },
        )
    }

    /// The bytes of the stream at entry `idx`: read from the mini stream
    /// when shorter than the cutoff, from the regular chain otherwise; the
    /// result holds exactly the entry's declared length.
    pub fn read_stream_entry(&self, idx: usize) -> (r: Result<Vec<u8>, MsiError>)
        requires
            self.wf(),
            idx < self.entries@.len(),
        ensures
            r matches Ok(b) ==> b@.len() == self.entries@[idx as int]@.size,
            r matches Ok(b) ==> read_entry_spec(*self, idx as int) matches Ok(sb) && b@ == sb,
            r is Err ==> read_entry_spec(*self, idx as int) == Err::<Seq<u8>, MsiError>(
                r->Err_0,
            ),
    {
        let e_type = self.entries[idx].obj_type;
        if e_type != TYPE_STREAM {
            return Err(MsiError::MalformedDirectory);
        }
        let size64 = self.entries[idx].size;
        if size64 > usize::MAX as u64 {
            return Err(MsiError::StreamTruncated);
        }
        let size = size64 as usize;
        let start = self.entries[idx].start;
        if size64 < self.mini_cutoff as u64 {
            read_stream_bytes(&self.mini_stream, &self.minifat, 64, 0, start, size)
        } else {
            read_stream_bytes(
                &self.data,
                &self.fat,
                self.sector_size,
                self.sector_size,
                start,
                size,
            )
        }
    }
}

/// What reading the stream at entry `idx` returns: only entries of stream
/// type can be read, and a declared length beyond the address space is
/// truncation.
pub open spec fn read_entry_spec(c: Container, idx: int) -> Result<Seq<u8>, MsiError> {
    let e = c.entries@[idx]@;
    if e.obj_type != TYPE_STREAM {
        Err(MsiError::MalformedDirectory)
    } else if e.size > usize::MAX {
        Err(MsiError::StreamTruncated)
    } else if e.size < c.mini_cutoff {
        stream_read_spec(c.mini_stream@, c.minifat@, 64, 0, e.start, e.size as int)
    } else {
        stream_read_spec(
            c.data@,
            c.fat@,
            c.sector_size as int,
            c.sector_size as int,
            e.start,
            e.size as int,
        )
    }
}

/// Reads the 109 difference-table entries stored in the header.
fn read_header_difat(d: &Vec<u8>) -> (r: Vec<u32>)
    requires
        d@.len() >= 512,
    ensures
        r@ == Seq::new(109, |i: int| le32(d@, 76 + 4 * i)),
{
    let _n = d.len();
    let mut r: Vec<u32> = Vec::new();
    let mut i: usize = 0;
    while i < 109
        invariant
            i <= 109,
            d@.len() >= 512,
            d@.len() <= usize::MAX,
            r@.len() == i,
            forall|j: int| 0 <= j < i ==> r@[j] == le32(d@, 76 + 4 * j),
        decreases 109 - i,
    {
        r.push(read_le32(d, 76 + 4 * i));
        i += 1;
    }
    assert(r@ =~= Seq::new(109, |i: int| le32(d@, 76 + 4 * i)));
    r
}

/// One stream of the listing: its full decoded path, with `/` between
/// storage levels, and the directory entry it names.
pub struct StreamDesc {
    pub path: Vec<u16>,
    pub entry: u32,
}

/// The mathematical image of a listing entry.
pub ghost struct GStreamDesc {
    pub path: Seq<u16>,
    pub entry: u32,
}

impl View for StreamDesc {
    type V = GStreamDesc;

    open spec fn view(&self) -> GStreamDesc {
        GStreamDesc { path: self.path@, entry: self.entry }
    }
}

/// The streams among an in-order enumeration, in order, each under its
/// decoded name.
pub open spec fn streams_of_order(entries: Seq<DirEntry>, order: Seq<u32>) -> Seq<GStreamDesc>
    decreases order.len(),
{
    if order.len() == 0 {
        seq![]
    } else {
        let i = order[0];
        let rest = streams_of_order(entries, order.skip(1));
        if i < entries.len() && entries[i as int]@.obj_type == TYPE_STREAM {
            seq![
                GStreamDesc {
                    path: crate::ident::decode_name_spec(entries[i as int]@.name),
                    entry: i,
                },
            ] + rest
        } else {
            rest
        }
    }
}

/// The images of a listing.
pub open spec fn descs_of(list: Seq<StreamDesc>) -> Seq<GStreamDesc> {
    list.map_values(|d: StreamDesc| d@)
}

/// The first batch walks the root's children with an empty path prefix.
pub open spec fn plen_inv(first: bool, prefix: Seq<u16>) -> bool {
    first ==> prefix.len() == 0
}

/// Whether the root's in-order enumeration holds only streams, so that
/// the whole tree is flat and the listing is owed.
pub open spec fn all_streams_order(entries: Seq<DirEntry>) -> bool {
    all_streams_order_of(views_of(entries))
}

/// The in-order enumeration of the root's children: the root is already
/// visited, everything else is fresh.
pub open spec fn root_order_of(ge: Seq<GDirEntry>) -> Result<(Seq<u32>, Seq<bool>), MsiError> {
    inorder_spec(
        ge,
        Seq::new(ge.len(), |i: int| false).update(0, true),
        ge[0].child,
        ge.len() as nat,
    )
}

/// The same enumeration, over an arena of decoded entries.
pub open spec fn root_order(entries: Seq<DirEntry>) -> Result<(Seq<u32>, Seq<bool>), MsiError> {
    root_order_of(views_of(entries))
}

/// Whether the root's in-order enumeration holds only streams.
pub open spec fn all_streams_order_of(ge: Seq<GDirEntry>) -> bool {
    root_order_of(ge) matches Ok(ov) && (forall|i: int|
        0 <= i < ov.0.len() ==> (#[trigger] ov.0[i]) < ge.len() && ge[ov.0[i] as int].obj_type
            == TYPE_STREAM)
}

/// The decoded entries a directory chain's bytes denote.
pub open spec fn entries_spec(db: Seq<u8>) -> Seq<GDirEntry> {
    Seq::new((db.len() / 128) as nat, |k: int| record_spec(db, k))
}

/// Builds the flat listing of every stream in the tree: each storage's
/// children are enumerated in sibling-tree order, root first, and each
/// stream contributes its decoded path.
pub fn build_listing(entries: &Vec<DirEntry>) -> (r: Result<Vec<StreamDesc>, MsiError>)
    requires
        entries@.len() >= 1,
    ensures
        r matches Ok(list) ==> forall|i: int|
            0 <= i < list@.len() ==> (#[trigger] list@[i].entry) < entries@.len()
                && entries@[list@[i].entry as int]@.obj_type == TYPE_STREAM,
        r is Err ==> r == Err::<Vec<StreamDesc>, MsiError>(MsiError::MalformedDirectory),
        r matches Ok(list) ==> (root_order(entries@) matches Ok(ov) ==> {
            let rl = streams_of_order(entries@, ov.0);
            &&& list@.len() >= rl.len()
            &&& forall|i: int| 0 <= i < rl.len() ==> (#[trigger] list@[i])@ == rl[i]
        }),
        (entries@.len() < 0xFFFF0000 && all_streams_order(entries@)) ==> r is Ok,
{
    let n = entries.len();
    if n >= 0xFFFF0000 {
        return Err(MsiError::MalformedDirectory);
    }
    let mut visited: Vec<bool> = Vec::new();
    let mut k: usize = 0;
    while k < n
        invariant
            k <= n,
            visited@ =~= Seq::new(k as nat, |i: int| false),
        decreases n - k,
    {
        visited.push(false);
        k += 1;
        assert(visited@ =~= Seq::new(k as nat, |i: int| false));
    }
    visited.set(0, true);
    assert(visited@ =~= Seq::new(n as nat, |i: int| false).update(0, true));
    let mut list: Vec<StreamDesc> = Vec::new();
    let mut stack: Vec<(Vec<u16>, u32)> = Vec::new();
    let root_child = entries[0].child;
    let root_prefix: Vec<u16> = Vec::new();
    stack.push((root_prefix, root_child));
    let mut iter: usize = 0;
    while iter <= n
        invariant
            entries@.len() == n,
            1 <= n < 0xFFFF0000,
            iter <= n + 1,
            forall|i: int|
                0 <= i < list@.len() ==> (#[trigger] list@[i].entry) < entries@.len()
                    && entries@[list@[i].entry as int]@.obj_type == TYPE_STREAM,
            iter == 0 ==> (stack@.len() == 1 && stack@[0].1 == entries@[0]@.child
                && stack@[0].0@.len() == 0 && visited@ == Seq::new(n as nat, |i: int| false).update(
                0,
                true,
            ) && list@.len() == 0),
            iter >= 1 ==> (root_order(entries@) matches Ok(ov) && {
                let rl = streams_of_order(entries@, ov.0);
                &&& list@.len() >= rl.len()
                &&& forall|i: int| 0 <= i < rl.len() ==> (#[trigger] list@[i])@ == rl[i]
            }),
            (iter >= 1 && all_streams_order(entries@)) ==> stack@.len() == 0,
            all_streams_order(entries@) ==> iter <= 1,
        decreases n + 1 - iter,
    {
        let top = match stack.pop() {
            Some(t) => t,
            None => {
                return Ok(list);
            },
        };
        let (prefix, child) = top;
        let ghost old_visited = visited@;
        let ghost first = iter == 0;
        let mut order: Vec<u32> = Vec::new();
        match inorder_walk(entries, &mut visited, child, n as u32, &mut order) {
            Ok(()) => {},
            Err(e) => {
                proof {
                    assert(views_of(entries@).len() == entries@.len());
                    assert(views_of(entries@)[0] == entries@[0]@);
                    crate::directory::lemma_inorder_err(
                        views_of(entries@),
                        old_visited,
                        child,
                        n as nat,
                    );
                }
                return Err(e);
            },
        }
        proof {
            if first {
                assert(views_of(entries@).len() == entries@.len());
                assert(views_of(entries@)[0] == entries@[0]@);
                assert(root_order(entries@) matches Ok(ov) && ov.0 == order@);
            }
        }
        let mut j: usize = 0;
        let m = order.len();
        assert(order@.skip(0) =~= order@);
        while j < m
            invariant
                entries@.len() == n,
                m == order@.len(),
                j <= m,
                plen_inv(first, prefix@),
                forall|i: int|
                    0 <= i < list@.len() ==> (#[trigger] list@[i].entry) < entries@.len()
                        && entries@[list@[i].entry as int]@.obj_type == TYPE_STREAM,
                first ==> (root_order(entries@) matches Ok(ov) && ov.0 == order@
                    && streams_of_order(entries@, order@) == descs_of(list@) + streams_of_order(
                    entries@,
                    order@.skip(j as int),
                )),
                !first ==> (root_order(entries@) matches Ok(ov) && {
                    let rl = streams_of_order(entries@, ov.0);
                    &&& list@.len() >= rl.len()
                    &&& forall|i: int| 0 <= i < rl.len() ==> (#[trigger] list@[i])@ == rl[i]
                }),
                (first && all_streams_order(entries@)) ==> (stack@.len() == 0 && order@
                    == root_order(entries@)->Ok_0.0),
                !first ==> !all_streams_order(entries@),
            decreases m - j,
        {
            let idx = order[j];
            assert(order@.skip(j as int)[0] == order@[j as int]);
            assert(order@.skip(j as int).skip(1) =~= order@.skip(j + 1));
            if (idx as usize) >= n {
                return Err(MsiError::MalformedDirectory);
            }
            let e_type = entries[idx as usize].obj_type;
            let decoded = decode_name(&entries[idx as usize].name);
            let mut path: Vec<u16> = Vec::new();
            let mut p: usize = 0;
            let plen = prefix.len();
            while p < plen
                invariant
                    p <= plen,
                    plen == prefix@.len(),
                    path@ == prefix@.subrange(0, p as int),
                decreases plen - p,
            {
                path.push(prefix[p]);
                p += 1;
                assert(prefix@.subrange(0, p as int) =~= prefix@.subrange(0, p - 1).push(
                    prefix@[p - 1],
                ));
            }
            if plen > 0 {
                path.push(0x2F);
            }
            let ghost base = path@;
            let mut q: usize = 0;
            let dlen = decoded.len();
            while q < dlen
                invariant
                    q <= dlen,
                    dlen == decoded@.len(),
                    path@ == base + decoded@.subrange(0, q as int),
                decreases dlen - q,
            {
                path.push(decoded[q]);
                q += 1;
                assert(base + decoded@.subrange(0, q as int) =~= (base + decoded@.subrange(
                    0,
                    q - 1,
                )).push(decoded@[q - 1]));
            }
            assert(path@ =~= base + decoded@);
            proof {
                if first {
                    assert(prefix@.len() == 0);
                    assert(base =~= Seq::<u16>::empty());
                    assert(path@ =~= decoded@);
                }
            }
            let ghost pre_list = list@;
            if e_type == TYPE_STREAM {
                list.push(StreamDesc { path, entry: idx });
                proof {
                    if first {
                        assert(descs_of(list@) =~= descs_of(pre_list) + seq![
                            GStreamDesc {
                                path: crate::ident::decode_name_spec(
                                    entries@[idx as int]@.name,
                                ),
                                entry: idx,
                            },
                        ]);
                        assert(forall|a: Seq<GStreamDesc>, bb: Seq<GStreamDesc>, c: Seq<
                            GStreamDesc,
                        >| (a + bb) + c =~= a + (bb + c));
                    }
                }
            } else if e_type == TYPE_STORAGE {
                stack.push((path, entries[idx as usize].child));
            } else {
                return Err(MsiError::MalformedDirectory);
            }
            j += 1;
        }
        proof {
            if first {
                assert(order@.skip(m as int) =~= Seq::<u32>::empty());
                assert(descs_of(list@) + Seq::<GStreamDesc>::empty() =~= descs_of(list@));
                let ov = root_order(entries@)->Ok_0;
                let rl = streams_of_order(entries@, ov.0);
                assert(rl == descs_of(list@));
                assert(forall|i: int|
                    0 <= i < rl.len() ==> (#[trigger] list@[i])@ == descs_of(list@)[i]);
            }
        }
        iter += 1;
    }
    Err(MsiError::MalformedDirectory)
}


/// Whether a path's UTF-16 units spell out the same text as the encoded
/// bytes `bs` of an ASCII name, one unit per byte.
pub open spec fn units_spell_bytes(p: Seq<u16>, bs: Seq<u8>) -> bool {
    p.len() == bs.len() && forall|i: int| 0 <= i < p.len() ==> p[i] == bs[i] as u16
}

/// The stored units of the reserved name `\u{5}DigitalSignature`.
pub open spec fn digital_signature_units() -> Seq<u16> {
    seq![5u16, 68, 105, 103, 105, 116, 97, 108, 83, 105, 103, 110, 97, 116, 117, 114, 101]
}

/// The stored units of the reserved name `\u{5}MsiDigitalSignatureEx`.
pub open spec fn signature_ex_units() -> Seq<u16> {
    seq![
        5u16,
        77,
        115,
        105,
        68,
        105,
        103,
        105,
        116,
        97,
        108,
        83,
        105,
        103,
        110,
        97,
        116,
        117,
        114,
        101,
        69,
        120,
    ]
}

/// Builds the reserved signature stream name.
pub fn digital_signature_name() -> (r: Vec<u16>)
    ensures
        r@ == digital_signature_units(),
{
    let mut v: Vec<u16> = Vec::new();
    v.push(5);
    v.push(68);
    v.push(105);
    v.push(103);
    v.push(105);
    v.push(116);
    v.push(97);
    v.push(108);
    v.push(83);
    v.push(105);
    v.push(103);
    v.push(110);
    v.push(97);
    v.push(116);
    v.push(117);
    v.push(114);
    v.push(101);
    assert(v@ =~= digital_signature_units());
    v
}

/// Builds the reserved extended signature stream name.
pub fn signature_ex_name() -> (r: Vec<u16>)
    ensures
        r@ == signature_ex_units(),
{
    let mut v: Vec<u16> = Vec::new();
    v.push(5);
    v.push(77);
    v.push(115);
    v.push(105);
    v.push(68);
    v.push(105);
    v.push(103);
    v.push(105);
    v.push(116);
    v.push(97);
    v.push(108);
    v.push(83);
    v.push(105);
    v.push(103);
    v.push(110);
    v.push(97);
    v.push(116);
    v.push(117);
    v.push(114);
    v.push(101);
    v.push(69);
    v.push(120);
    assert(v@ =~= signature_ex_units());
    v
}

/// The stored units of the system stream name `_StringPool`.
pub open spec fn string_pool_units() -> Seq<u16> {
    seq![95u16, 83, 116, 114, 105, 110, 103, 80, 111, 111, 108]
}

/// Builds the system stream name `_StringPool`.
pub fn string_pool_name() -> (r: Vec<u16>)
    ensures
        r@ == string_pool_units(),
{
    let mut v: Vec<u16> = Vec::new();
    v.push(95);
    v.push(83);
    v.push(116);
    v.push(114);
    v.push(105);
    v.push(110);
    v.push(103);
    v.push(80);
    v.push(111);
    v.push(111);
    v.push(108);
    assert(v@ =~= string_pool_units());
    v
}

/// The stored units of the system stream name `_StringData`.
pub open spec fn string_data_units() -> Seq<u16> {
    seq![95u16, 83, 116, 114, 105, 110, 103, 68, 97, 116, 97]
}

/// Builds the system stream name `_StringData`.
pub fn string_data_name() -> (r: Vec<u16>)
    ensures
        r@ == string_data_units(),
{
    let mut v: Vec<u16> = Vec::new();
    v.push(95);
    v.push(83);
    v.push(116);
    v.push(114);
    v.push(105);
    v.push(110);
    v.push(103);
    v.push(68);
    v.push(97);
    v.push(116);
    v.push(97);
    assert(v@ =~= string_data_units());
    v
}

/// The stored units of the system stream name `_Tables`.
pub open spec fn tables_stream_units() -> Seq<u16> {
    seq![95u16, 84, 97, 98, 108, 101, 115]
}

/// Builds the system stream name `_Tables`.
pub fn tables_stream_name() -> (r: Vec<u16>)
    ensures
        r@ == tables_stream_units(),
{
    let mut v: Vec<u16> = Vec::new();
    v.push(95);
    v.push(84);
    v.push(97);
    v.push(98);
    v.push(108);
    v.push(101);
    v.push(115);
    assert(v@ =~= tables_stream_units());
    v
}

/// The stored units of the system stream name `_Columns`.
pub open spec fn columns_stream_units() -> Seq<u16> {
    seq![95u16, 67, 111, 108, 117, 109, 110, 115]
}

/// Builds the system stream name `_Columns`.
pub fn columns_stream_name() -> (r: Vec<u16>)
    ensures
        r@ == columns_stream_units(),
{
    let mut v: Vec<u16> = Vec::new();
    v.push(95);
    v.push(67);
    v.push(111);
    v.push(108);
    v.push(117);
    v.push(109);
    v.push(110);
    v.push(115);
    assert(v@ =~= columns_stream_units());
    v
}

/// The stored units of the system stream name `\u{5}SummaryInformation`.
pub open spec fn summary_info_units() -> Seq<u16> {
    seq![5u16, 83, 117, 109, 109, 97, 114, 121, 73, 110, 102, 111, 114, 109, 97, 116, 105, 111, 110]
}

/// Builds the system stream name `\u{5}SummaryInformation`.
pub fn summary_info_name() -> (r: Vec<u16>)
    ensures
        r@ == summary_info_units(),
{
    let mut v: Vec<u16> = Vec::new();
    v.push(5);
    v.push(83);
    v.push(117);
    v.push(109);
    v.push(109);
    v.push(97);
    v.push(114);
    v.push(121);
    v.push(73);
    v.push(110);
    v.push(102);
    v.push(111);
    v.push(114);
    v.push(109);
    v.push(97);
    v.push(116);
    v.push(105);
    v.push(111);
    v.push(110);
    assert(v@ =~= summary_info_units());
    v
}

/// Compares two unit vectors.
pub fn units_eq(a: &Vec<u16>, b: &Vec<u16>) -> (r: bool)
    ensures
        r == (a@ == b@),
{
    let n = a.len();
    if n != b.len() {
        return false;
    }
    let mut i: usize = 0;
    while i < n
        invariant
            i <= n,
            n == a@.len() == b@.len(),
            forall|j: int| 0 <= j < i ==> a@[j] == b@[j],
        decreases n - i,
    {
        if a[i] != b[i] {
            return false;
        }
        i += 1;
    }
    assert(a@ =~= b@);
    true
}

/// Widens name bytes to UTF-16 units, one unit per byte.
pub fn bytes_to_units(b: &Vec<u8>) -> (r: Vec<u16>)
    ensures
        r@ == Seq::new(b@.len(), |i: int| b@[i] as u16),
{
    let n = b.len();
    let mut r: Vec<u16> = Vec::new();
    let mut i: usize = 0;
    while i < n
        invariant
            i <= n,
            n == b@.len(),
            r@.len() == i,
            forall|j: int| 0 <= j < i ==> r@[j] == b@[j] as u16,
        decreases n - i,
    {
        r.push(b[i] as u16);
        i += 1;
    }
    assert(r@ =~= Seq::new(b@.len(), |i: int| b@[i] as u16));
    r
}

/// Turns an ASCII name into its UTF-16 units, one unit per encoded byte;
/// a name with characters beyond ASCII gives nothing.
pub fn str_to_units(s: &str) -> (r: Option<Vec<u16>>)
    ensures
        vstd::string::is_ascii(s) ==> (r matches Some(v) && units_spell_bytes(
            v@,
            vstd::string::StringSliceAdditionalSpecFns::spec_bytes(s),
        )),
        !vstd::string::is_ascii(s) ==> r is None,
{
    if !s.is_ascii() {
        return None;
    }
    let bytes = s.as_bytes();
    let n = bytes.len();
    let mut v: Vec<u16> = Vec::new();
    let mut i: usize = 0;
    while i < n
        invariant
            i <= n,
            n == bytes@.len(),
            v@.len() == i,
            forall|j: int| 0 <= j < i ==> v@[j] == bytes@[j] as u16,
        decreases n - i,
    {
        v.push(bytes[i] as u16);
        i += 1;
    }
    Some(v)
}

/// An opened installer package: the container plus its stream listing.
pub struct Package {
    pub container: Container,
    pub listing: Vec<StreamDesc>,
}

/// One extracted signature payload, under its output name with the
/// control-character prefix stripped.
pub struct SignaturePayload {
    pub name: String,
    pub data: Vec<u8>,
}

/// One decoded table, rendered: its name, its ordered column names, and
/// its rows of cell texts in on-disk order.
pub struct TableDump {
    pub name: Vec<u8>,
    pub columns: Vec<Vec<u8>>,
    pub rows: Vec<Vec<Vec<u8>>>,
}

/// Whether the listing holds a stream whose decoded path spells `units`.
pub open spec fn has_stream_units(p: Package, units: Seq<u16>) -> bool {
    exists|i: int| 0 <= i < p.listing@.len() && (#[trigger] p.listing@[i].path@) == units
}

impl Package {
    /// What every method relies on: a well-formed container and a listing
    /// whose entries all name streams of its directory.
    pub open spec fn wf(self) -> bool {
        &&& self.container.wf()
        &&& forall|i: int|
            0 <= i < self.listing@.len() ==> (#[trigger] self.listing@[i].entry)
                < self.container.entries@.len()
                && self.container.entries@[self.listing@[i].entry as int]@.obj_type == TYPE_STREAM
    }

    /// Opens a package: validates and materializes the container, then
    /// builds the stream listing.
    pub fn open(data: Vec<u8>) -> (r: Result<Package, MsiError>)
        ensures
            open_check(data@) is Err ==> r == Err::<Package, MsiError>(open_check(data@)->Err_0),
            r is Err ==> open_check(data@) is Err || r == Err::<Package, MsiError>(
                MsiError::MalformedDirectory,
            ),
            r matches Ok(p) ==> p.wf() && header_ok(data@) && open_check(data@) is Ok,
            r matches Ok(p) ==> {
                &&& p.container.data@ == data@
                &&& dir_bytes_spec(data@) matches Ok(db) && {
                    &&& p.container.entries@.len() == db.len() / 128
                    &&& forall|k: int|
                        0 <= k < p.container.entries@.len() ==> p.container.entries@[k]@
                            == record_spec(db, k)
                }
                &&& (root_order(p.container.entries@) matches Ok(ov) ==> {
                    let rl = streams_of_order(p.container.entries@, ov.0);
                    &&& p.listing@.len() >= rl.len()
                    &&& forall|i: int| 0 <= i < rl.len() ==> (#[trigger] p.listing@[i])@ == rl[i]
                })
            },
            (open_check(data@) is Ok && (dir_bytes_spec(data@) matches Ok(db) && db.len() / 128
                < 0xFFFF0000 && all_streams_order_of(entries_spec(db)))) ==> r is Ok,
    {
        let container = match Container::open(data) {
            Ok(c) => c,
            Err(e) => {
                return Err(e);
            },
        };
        proof {
            let db = dir_bytes_spec(data@)->Ok_0;
            assert(views_of(container.entries@) =~= entries_spec(db));
        }
        let listing = match build_listing(&container.entries) {
            Ok(l) => l,
            Err(e) => {
                return Err(e);
            },
        };
        Ok(Package { container, listing })
    }

    /// The decoded path of every stream, in listing order.
    pub fn streams(&self) -> (r: Vec<Vec<u16>>)
        ensures
            r@.len() == self.listing@.len(),
            forall|i: int| 0 <= i < r@.len() ==> (#[trigger] r@[i])@ == self.listing@[i].path@,
    {
        let n = self.listing.len();
        let mut r: Vec<Vec<u16>> = Vec::new();
        let mut i: usize = 0;
        while i < n
            invariant
                i <= n,
                n == self.listing@.len(),
                r@.len() == i,
                forall|j: int| 0 <= j < i ==> (#[trigger] r@[j])@ == self.listing@[j].path@,
            decreases n - i,
        {
            let src = &self.listing[i].path;
            let m = src.len();
            let mut path: Vec<u16> = Vec::new();
            let mut k: usize = 0;
            while k < m
                invariant
                    k <= m,
                    m == src@.len(),
                    path@ == src@.subrange(0, k as int),
                decreases m - k,
            {
                path.push(src[k]);
                k += 1;
                assert(src@.subrange(0, k as int) =~= src@.subrange(0, k - 1).push(src@[k - 1]));
            }
            assert(path@ =~= src@);
            r.push(path);
            i += 1;
        }
        r
    }

    /// Finds the listing position of the stream whose decoded path
    /// spells `units`, scanning in listing order.
    pub fn find_stream_units(&self, units: &Vec<u16>) -> (r: Option<usize>)
        ensures
            r matches Some(i) ==> i < self.listing@.len() && self.listing@[i as int].path@
                == units@ && (forall|j: int|
                0 <= j < i ==> (#[trigger] self.listing@[j].path@) != units@),
            r is None ==> !has_stream_units(*self, units@),
    {
        let n = self.listing.len();
        let mut i: usize = 0;
        while i < n
            invariant
                i <= n,
                n == self.listing@.len(),
                forall|j: int| 0 <= j < i ==> (#[trigger] self.listing@[j].path@) != units@,
            decreases n - i,
        {
            if units_eq(&self.listing[i].path, units) {
                return Some(i);
            }
            i += 1;
        }
        None
    }

    /// The bytes of the stream whose decoded path spells `units`: nothing
    /// when no such stream exists or its chain cannot be read, so that
    /// callers enumerating many streams can skip and continue.
    pub fn read_stream_units(&self, units: &Vec<u16>) -> (r: Option<Vec<u8>>)
        requires
            self.wf(),
        ensures
            r matches Some(b) ==> exists|i: int|
                0 <= i < self.listing@.len() && (#[trigger] self.listing@[i].path@) == units@
                    && read_entry_spec(self.container, self.listing@[i].entry as int) == Ok::<
                    Seq<u8>,
                    MsiError,
                >(b@),
            !has_stream_units(*self, units@) ==> r is None,
            forall|i: int|
                (0 <= i < self.listing@.len() && (#[trigger] self.listing@[i].path@) == units@
                    && (forall|j: int| 0 <= j < i ==> self.listing@[j].path@ != units@)
                    && read_entry_spec(self.container, self.listing@[i].entry as int) is Ok) ==> (
                r matches Some(b) && b@ == read_entry_spec(
                    self.container,
                    self.listing@[i].entry as int,
                )->Ok_0),
    {
        match self.find_stream_units(units) {
            Some(i) => {
                let entry = self.listing[i].entry;
                match self.container.read_stream_entry(entry as usize) {
                    Ok(b) => {
                        assert(read_entry_spec(self.container, entry as int) == Ok::<
                            Seq<u8>,
                            MsiError,
                        >(b@));
                        Some(b)
                    },
                    Err(_) => {
                        assert(read_entry_spec(self.container, entry as int) is Err);
                        None
                    },
                }
            },
            None => None,
        }
    }

    /// The bytes of the stream named by ASCII text: nothing when the name
    /// is not ASCII, no stream carries it, or its chain cannot be read;
    /// the first readable stream spelling the name is returned.
    pub fn read_stream(&self, name: &str) -> (r: Option<Vec<u8>>)
        requires
            self.wf(),
        ensures
            r matches Some(b) ==> exists|i: int|
                0 <= i < self.listing@.len() && units_spell_bytes(
                    (#[trigger] self.listing@[i]).path@,
                    vstd::string::StringSliceAdditionalSpecFns::spec_bytes(name),
                ) && read_entry_spec(self.container, self.listing@[i].entry as int) == Ok::<
                    Seq<u8>,
                    MsiError,
                >(b@),
            vstd::string::is_ascii(name) ==> forall|i: int|
                (0 <= i < self.listing@.len() && units_spell_bytes(
                    (#[trigger] self.listing@[i].path@),
                    vstd::string::StringSliceAdditionalSpecFns::spec_bytes(name),
                ) && (forall|j: int|
                    0 <= j < i ==> !units_spell_bytes(
                        self.listing@[j].path@,
                        vstd::string::StringSliceAdditionalSpecFns::spec_bytes(name),
                    )) && read_entry_spec(self.container, self.listing@[i].entry as int) is Ok)
                    ==> (r matches Some(b) && b@ == read_entry_spec(
                    self.container,
                    self.listing@[i].entry as int,
                )->Ok_0),
            !vstd::string::is_ascii(name) ==> r is None,
    {
        match str_to_units(name) {
            Some(units) => {
                let r = self.read_stream_units(&units);
                proof {
                    if r is Some {
                        let b = r->0;
                        let i = choose|i: int|
                            0 <= i < self.listing@.len() && (#[trigger] self.listing@[i].path@)
                                == units@ && read_entry_spec(
                                self.container,
                                self.listing@[i].entry as int,
                            ) == Ok::<Seq<u8>, MsiError>(b@);
                        assert(units_spell_bytes(
                            self.listing@[i].path@,
                            vstd::string::StringSliceAdditionalSpecFns::spec_bytes(name),
                        ));
                    }
                    if vstd::string::is_ascii(name) {
                        let bs = vstd::string::StringSliceAdditionalSpecFns::spec_bytes(name);
                        assert forall|i: int|
                            (0 <= i < self.listing@.len() && units_spell_bytes(
                                (#[trigger] self.listing@[i].path@),
                                bs,
                            ) && (forall|j: int|
                                0 <= j < i ==> !units_spell_bytes(self.listing@[j].path@, bs))
                                && read_entry_spec(
                                self.container,
                                self.listing@[i].entry as int,
                            ) is Ok) implies (r matches Some(b) && b@ == read_entry_spec(
                            self.container,
                            self.listing@[i].entry as int,
                        )->Ok_0) by {
                            assert(self.listing@[i].path@ =~= units@);
                            assert forall|j: int|
                                0 <= j < i implies self.listing@[j].path@ != units@ by {
                                if self.listing@[j].path@ == units@ {
                                    assert(units_spell_bytes(self.listing@[j].path@, bs));
                                }
                            }
                        }
                    }
                }
                r
            },
            None => None,
        }
    }

    /// Whether either reserved signature stream is present; absence of
    /// both means the package is not signed.
    pub fn is_signed(&self) -> (r: bool)
        ensures
            r == (has_stream_units(*self, digital_signature_units()) || has_stream_units(
                *self,
                signature_ex_units(),
            )),
    {
        let sig = digital_signature_name();
        let ex = signature_ex_name();
        let a = self.find_stream_units(&sig);
        let b = self.find_stream_units(&ex);
        match (a, b) {
            (None, None) => false,
            _ => true,
        }
    }

    /// Extracts every present signature payload, under its name with the
    /// control prefix stripped; an unsigned package yields none, and no
    /// error: absence is a normal state.
    #[verifier::rlimit(100)]
    pub fn signatures(&self) -> (r: Vec<SignaturePayload>)
        requires
            self.wf(),
        ensures
            !(has_stream_units(*self, digital_signature_units()) || has_stream_units(
                *self,
                signature_ex_units(),
            )) ==> r@.len() == 0,
            r@.len() <= 2,
            forall|i: int|
                0 <= i < r@.len() ==> (#[trigger] r@[i].name@) == "DigitalSignature"@ || r@[i].name@
                    == "MsiDigitalSignatureEx"@,
            forall|i: int|
                (0 <= i < self.listing@.len() && (#[trigger] self.listing@[i].path@)
                    == digital_signature_units() && (forall|j: int|
                    0 <= j < i ==> self.listing@[j].path@ != digital_signature_units())
                    && read_entry_spec(self.container, self.listing@[i].entry as int) is Ok) ==> (
                exists|k: int|
                    0 <= k < r@.len() && (#[trigger] r@[k].name@) == "DigitalSignature"@
                        && r@[k].data@ == read_entry_spec(
                        self.container,
                        self.listing@[i].entry as int,
                    )->Ok_0),
            forall|i: int|
                (0 <= i < self.listing@.len() && (#[trigger] self.listing@[i].path@)
                    == signature_ex_units() && (forall|j: int|
                    0 <= j < i ==> self.listing@[j].path@ != signature_ex_units())
                    && read_entry_spec(self.container, self.listing@[i].entry as int) is Ok) ==> (
                exists|k: int|
                    0 <= k < r@.len() && (#[trigger] r@[k].name@) == "MsiDigitalSignatureEx"@
                        && r@[k].data@ == read_entry_spec(
                        self.container,
                        self.listing@[i].entry as int,
                    )->Ok_0),
    {
        let mut out: Vec<SignaturePayload> = Vec::new();
        let sig = digital_signature_name();
        let rs = self.read_stream_units(&sig);
        let ghost got_sig: Option<Seq<u8>> = match rs {
            Some(ref d) => Some(d@),
            None => None::<Seq<u8>>,
        };
        match rs {
            Some(data) => {
                out.push(SignaturePayload { name: "DigitalSignature".to_owned(), data });
                assert(out@[0].name@ == "DigitalSignature"@);
            },
            None => {},
        }
        let ghost after_sig = out@;
        let ex = signature_ex_name();
        let re = self.read_stream_units(&ex);
        let ghost got_ex: Option<Seq<u8>> = match re {
            Some(ref d) => Some(d@),
            None => None::<Seq<u8>>,
        };
        match re {
            Some(data) => {
                let ghost pos = out@.len();
                out.push(SignaturePayload { name: "MsiDigitalSignatureEx".to_owned(), data });
                assert(out@[pos as int].name@ == "MsiDigitalSignatureEx"@);
                assert(forall|k: int| 0 <= k < after_sig.len() ==> after_sig[k] == out@[k]);
            },
            None => {},
        }
        proof {
            assert forall|i: int|
                (0 <= i < self.listing@.len() && (#[trigger] self.listing@[i].path@)
                    == digital_signature_units() && (forall|j: int|
                    0 <= j < i ==> self.listing@[j].path@ != digital_signature_units())
                    && read_entry_spec(self.container, self.listing@[i].entry as int)
                    is Ok) implies (exists|k: int|
                0 <= k < out@.len() && (#[trigger] out@[k].name@) == "DigitalSignature"@
                    && out@[k].data@ == read_entry_spec(
                    self.container,
                    self.listing@[i].entry as int,
                )->Ok_0) by {
                assert(got_sig == Some(
                    read_entry_spec(self.container, self.listing@[i].entry as int)->Ok_0,
                ));
                assert(out@[0].name@ == "DigitalSignature"@ && out@[0].data@ == read_entry_spec(
                    self.container,
                    self.listing@[i].entry as int,
                )->Ok_0);
            }
            assert forall|i: int|
                (0 <= i < self.listing@.len() && (#[trigger] self.listing@[i].path@)
                    == signature_ex_units() && (forall|j: int|
                    0 <= j < i ==> self.listing@[j].path@ != signature_ex_units())
                    && read_entry_spec(self.container, self.listing@[i].entry as int)
                    is Ok) implies (exists|k: int|
                0 <= k < out@.len() && (#[trigger] out@[k].name@) == "MsiDigitalSignatureEx"@
                    && out@[k].data@ == read_entry_spec(
                    self.container,
                    self.listing@[i].entry as int,
                )->Ok_0) by {
                assert(got_ex == Some(
                    read_entry_spec(self.container, self.listing@[i].entry as int)->Ok_0,
                ));
                let kk = out@.len() - 1;
                assert(out@[kk].name@ == "MsiDigitalSignatureEx"@ && out@[kk].data@
                    == read_entry_spec(self.container, self.listing@[i].entry as int)->Ok_0);
            }
        }
        out
    }
}

impl Package {
    /// Decodes every table: names from the `_Tables` stream, schemas from
    /// `_Columns`, rows from each table's own stream, all rendered to
    /// text through the pool's recorded codepage. A package without the database system streams has no tables;
    /// a table whose schema or rows cannot be decoded is skipped, prior
    /// tables unaffected; a bad string pool fails the whole call. Every
    /// row of every returned table holds one cell per column.
    pub fn tables(&self) -> (r: Result<Vec<TableDump>, MsiError>)
        requires
            self.wf(),
        ensures
            r matches Ok(ts) ==> forall|t: int, i: int|
                0 <= t < ts@.len() && 0 <= i < ts@[t].rows@.len() ==> (
                #[trigger] ts@[t].rows@[i])@.len() == ts@[t].columns@.len(),
            !has_stream_units(*self, string_pool_units()) ==> (r matches Ok(ts) && ts@.len() == 0),
            forall|i: int, i2: int|
                (0 <= i < self.listing@.len() && 0 <= i2 < self.listing@.len() && (
                #[trigger] self.listing@[i].path@) == string_pool_units() && (forall|j: int|
                    0 <= j < i ==> self.listing@[j].path@ != string_pool_units()) && (
                #[trigger] self.listing@[i2].path@) == string_data_units() && (forall|j: int|
                    0 <= j < i2 ==> self.listing@[j].path@ != string_data_units())
                    && (read_entry_spec(self.container, self.listing@[i].entry as int) matches Ok(
                    pb,
                ) && (read_entry_spec(self.container, self.listing@[i2].entry as int) matches Ok(
                    db,
                ) && crate::strpool::pool_spec(pb, db) is Err))) ==> r == Err::<
                    Vec<TableDump>,
                    MsiError,
                >(
                    crate::strpool::pool_spec(
                        read_entry_spec(self.container, self.listing@[i].entry as int)->Ok_0,
                        read_entry_spec(self.container, self.listing@[i2].entry as int)->Ok_0,
                    )->Err_0,
                ),
    {
        let pool_name = string_pool_name();
        let pool_b = match self.read_stream_units(&pool_name) {
            Some(b) => b,
            None => {
                return Ok(Vec::new());
            },
        };
        let data_name = string_data_name();
        let data_b = match self.read_stream_units(&data_name) {
            Some(b) => b,
            None => {
                return Ok(Vec::new());
            },
        };
        let pool = match crate::strpool::parse_pool(&pool_b, &data_b) {
            Ok(p) => p,
            Err(e) => {
                return Err(e);
            },
        };
        assert(pool_b@.len() >= 4);
        let cp = crate::strpool::pool_codepage(&pool_b);
        let tables_name = tables_stream_name();
        let tables_b = match self.read_stream_units(&tables_name) {
            Some(b) => b,
            None => {
                return Ok(Vec::new());
            },
        };
        let ids = match crate::database::parse_tables_stream(&tables_b, pool.len()) {
            Ok(x) => x,
            Err(e) => {
                return Err(e);
            },
        };
        let cols_name = columns_stream_name();
        let cols_b = match self.read_stream_units(&cols_name) {
            Some(b) => b,
            None => {
                return Ok(Vec::new());
            },
        };
        let recs = match crate::database::parse_columns_stream(&cols_b, pool.len()) {
            Ok(x) => x,
            Err(e) => {
                return Err(e);
            },
        };
        let mut out: Vec<TableDump> = Vec::new();
        let nt = ids.len();
        let mut t: usize = 0;
        while t < nt
            invariant
                self.wf(),
                nt == ids@.len(),
                t <= nt,
                forall|i: int| 0 <= i < ids@.len() ==> 1 <= #[trigger] ids@[i] <= pool@.len(),
                forall|i: int|
                    0 <= i < recs@.len() ==> 1 <= (#[trigger] recs@[i]).name_ref <= pool@.len(),
                forall|tt: int, i: int|
                    0 <= tt < out@.len() && 0 <= i < out@[tt].rows@.len() ==> (
                    #[trigger] out@[tt].rows@[i])@.len() == out@[tt].columns@.len(),
            decreases nt - t,
        {
            let id = ids[t];
            let src = &pool[id as usize - 1].text;
            let raw_name = crate::bytes::copy_range(src, 0, src.len());
            let name = crate::codepage::decode_text(&raw_name, cp);
            let cols = match crate::database::columns_for_table(&recs, id, &pool) {
                Ok(c) => c,
                Err(_) => {
                    t += 1;
                    continue ;
                },
            };
            let units = bytes_to_units(&raw_name);
            let rows_b = match self.read_stream_units(&units) {
                Some(b) => b,
                None => Vec::new(),
            };
            let vals = match crate::database::decode_rows(&rows_b, &cols, pool.len()) {
                Ok(v) => v,
                Err(_) => {
                    t += 1;
                    continue ;
                },
            };
            let nc = cols.len();
            let mut col_names: Vec<Vec<u8>> = Vec::new();
            let mut j: usize = 0;
            while j < nc
                invariant
                    j <= nc,
                    nc == cols@.len(),
                    col_names@.len() == j,
                decreases nc - j,
            {
                let cn = &cols[j].name;
                col_names.push(crate::codepage::decode_text(cn, cp));
                j += 1;
            }
            let nr = vals.len();
            let mut rows_txt: Vec<Vec<Vec<u8>>> = Vec::new();
            let mut ri: usize = 0;
            while ri < nr
                invariant
                    nr == vals@.len(),
                    ri <= nr,
                    nc == cols@.len(),
                    rows_txt@.len() == ri,
                    forall|i: int| 0 <= i < vals@.len() ==> (#[trigger] vals@[i])@.len() == nc,
                    forall|i: int| 0 <= i < ri ==> (#[trigger] rows_txt@[i])@.len() == nc,
                decreases nr - ri,
            {
                let row = &vals[ri];
                let m = row.len();
                let mut cells: Vec<Vec<u8>> = Vec::new();
                let mut cj: usize = 0;
                while cj < m
                    invariant
                        cj <= m,
                        m == row@.len(),
                        cells@.len() == cj,
                    decreases m - cj,
                {
                    let cell = crate::database::render_cell(&row[cj], &pool);
                    cells.push(crate::codepage::decode_text(&cell, cp));
                    cj += 1;
                }
                rows_txt.push(cells);
                ri += 1;
            }
            out.push(TableDump { name, columns: col_names, rows: rows_txt });
            t += 1;
        }
        Ok(out)
    }

    /// The metadata record: the summary-information stream's well-known
    /// properties, or the default record when that stream is absent or
    /// unreadable, with the signature check's result in either case.
    pub fn metadata(&self) -> (m: crate::meta::MsiMetaData)
        requires
            self.wf(),
        ensures
            m.is_signed == (has_stream_units(*self, digital_signature_units()) || has_stream_units(
                *self,
                signature_ex_units(),
            )),
            !has_stream_units(*self, summary_info_units()) ==> {
                &&& m.title@.len() == 0
                &&& m.subject@.len() == 0
                &&& m.author@.len() == 0
                &&& m.uuid@.len() == 0
                &&& m.arch@.len() == 0
                &&& m.languages@.len() == 0
                &&& m.created_at@.len() == 0
                &&& m.created_with@.len() == 0
                &&& m.comments@.len() == 0
                &&& m.word_count == -1
                &&& m.codepage@.len() == 0
                &&& m.codepage_id@.len() == 0
            },
            forall|i: int|
                (0 <= i < self.listing@.len() && (#[trigger] self.listing@[i].path@)
                    == summary_info_units() && (forall|j: int|
                    0 <= j < i ==> self.listing@[j].path@ != summary_info_units())
                    && read_entry_spec(self.container, self.listing@[i].entry as int) is Ok) ==> {
                    let sb = read_entry_spec(self.container, self.listing@[i].entry as int)->Ok_0;
                    &&& m.title@ == crate::codepage::decoded_text(
                        crate::meta::str_prop(sb, crate::meta::PID_TITLE),
                        crate::meta::summary_cp(sb),
                    )
                    &&& m.subject@ == crate::codepage::decoded_text(
                        crate::meta::str_prop(sb, crate::meta::PID_SUBJECT),
                        crate::meta::summary_cp(sb),
                    )
                    &&& m.author@ == crate::codepage::decoded_text(
                        crate::meta::str_prop(sb, crate::meta::PID_AUTHOR),
                        crate::meta::summary_cp(sb),
                    )
                    &&& m.comments@ == crate::codepage::decoded_text(
                        crate::meta::str_prop(sb, crate::meta::PID_COMMENTS),
                        crate::meta::summary_cp(sb),
                    )
                    &&& m.created_with@ == crate::codepage::decoded_text(
                        crate::meta::str_prop(sb, crate::meta::PID_APPNAME),
                        crate::meta::summary_cp(sb),
                    )
                    &&& m.uuid@ == crate::meta::uuid_text(
                        crate::meta::str_prop(sb, crate::meta::PID_REVISION),
                    )
                    &&& m.arch@ == crate::meta::arch_spec(sb)
                    &&& m.languages@.map_values(|f: Vec<u8>| f@) == crate::meta::languages_spec(sb)
                    &&& m.created_at@ == crate::meta::created_text_spec(sb)
                    &&& m.word_count == crate::meta::word_count_spec(sb)
                    &&& m.codepage@ == crate::meta::codepage_name_spec(
                        crate::meta::codepage_id_spec(sb),
                    )
                    &&& m.codepage_id@ == crate::database::int_text(
                        crate::meta::codepage_id_spec(sb) as int,
                    )
                },
    {
        let signed = self.is_signed();
        let name = summary_info_name();
        let rb = self.read_stream_units(&name);
        let ghost got: Option<Seq<u8>> = match rb {
            Some(ref b) => Some(b@),
            None => None::<Seq<u8>>,
        };
        match rb {
            Some(b) => crate::meta::assemble_metadata(&b, signed),
            None => {
                let mut m = crate::meta::MsiMetaData::default();
                m.is_signed = signed;
                m
            },
        }
    }
}

} // verus!

