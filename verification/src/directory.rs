//! Directory tree builder: fixed-size entry records, the in-order walk of
//! each storage's sibling tree, and the flat stream listing it produces.
use vstd::prelude::*;
use crate::MsiError;
use crate::bytes::{le16, le32, le64, read_le16, read_le32, read_le64};

verus! {

/// Marks an absent sibling or child link.
pub const NO_STREAM: u32 = 0xFFFFFFFF;

/// Entry type tag: unallocated.
pub const TYPE_UNUSED: u8 = 0;

/// Entry type tag: a storage (an interior node of the tree).
pub const TYPE_STORAGE: u8 = 1;

/// Entry type tag: a stream.
pub const TYPE_STREAM: u8 = 2;

/// Entry type tag: the root storage.
pub const TYPE_ROOT: u8 = 5;

/// One 128-byte directory record, decoded.
pub struct DirEntry {
    /// Stored name, UTF-16 units, at most 32 of them.
    pub name: Vec<u16>,
    pub obj_type: u8,
    pub left: u32,
    pub right: u32,
    pub child: u32,
    pub start: u32,
    pub size: u64,
}

/// The mathematical image of a directory entry.
pub ghost struct GDirEntry {
    pub name: Seq<u16>,
    pub obj_type: u8,
    pub left: u32,
    pub right: u32,
    pub child: u32,
    pub start: u32,
    pub size: u64,
}

impl View for DirEntry {
    type V = GDirEntry;

    open spec fn view(&self) -> GDirEntry {
        GDirEntry {
            name: self.name@,
            obj_type: self.obj_type,
            left: self.left,
            right: self.right,
            child: self.child,
            start: self.start,
            size: self.size,
        }
    }
}

/// A record is accepted when its type tag is known and its name holds at
/// most 32 UTF-16 units (a name length of 0, or 2..=64 bytes counting the
/// terminator, both even).
pub open spec fn entry_ok(b: Seq<u8>, off: int) -> bool {
    &&& (b[off + 66] == TYPE_UNUSED || b[off + 66] == TYPE_STORAGE || b[off + 66] == TYPE_STREAM
        || b[off + 66] == TYPE_ROOT)
    &&& le16(b, off + 64) % 2 == 0
    &&& le16(b, off + 64) <= 64
}

/// The name units of the record at `off`: its name length in bytes,
/// terminator included, shortened to the stored units.
pub open spec fn entry_name(b: Seq<u8>, off: int) -> Seq<u16> {
    if le16(b, off + 64) >= 2 {
        Seq::new(((le16(b, off + 64) - 2) / 2) as nat, |i: int| le16(b, off + 2 * i))
    } else {
        Seq::empty()
    }
}

/// The decoded image of the record at `off`.
pub open spec fn entry_spec(b: Seq<u8>, off: int) -> GDirEntry {
    GDirEntry {
        name: entry_name(b, off),
        obj_type: b[off + 66],
        left: le32(b, off + 68),
        right: le32(b, off + 72),
        child: le32(b, off + 76),
        start: le32(b, off + 116),
        size: le64(b, off + 120),
    }
}

/// Decodes one 128-byte record.
fn parse_entry(b: &Vec<u8>, off: usize) -> (r: Result<DirEntry, MsiError>)
    requires
        off + 128 <= b@.len(),
    ensures
        r is Ok <==> entry_ok(b@, off as int),
        r is Err ==> r == Err::<DirEntry, MsiError>(MsiError::MalformedDirectory),
        r matches Ok(e) ==> e@ == entry_spec(b@, off as int),
{
    let _n = b.len();
    let name_len = read_le16(b, off + 64);
    let obj_type = b[off + 66];
    if !(obj_type == TYPE_UNUSED || obj_type == TYPE_STORAGE || obj_type == TYPE_STREAM
        || obj_type == TYPE_ROOT) {
        return Err(MsiError::MalformedDirectory);
    }
    if name_len % 2 != 0 || name_len > 64 {
        return Err(MsiError::MalformedDirectory);
    }
    let units: usize = if name_len >= 2 {
        (name_len as usize - 2) / 2
    } else {
        0
    };
    let mut name: Vec<u16> = Vec::new();
    let mut i: usize = 0;
    while i < units
        invariant
            i <= units,
            units <= 31,
            off + 128 <= b@.len(),
            b@.len() <= usize::MAX,
            name@.len() == i,
            forall|j: int| 0 <= j < i ==> name@[j] == le16(b@, off + 2 * j),
        decreases units - i,
    {
        name.push(read_le16(b, off + 2 * i));
        i += 1;
    }
    let e = DirEntry {
        name,
        obj_type,
        left: read_le32(b, off + 68),
        right: read_le32(b, off + 72),
        child: read_le32(b, off + 76),
        start: read_le32(b, off + 116),
        size: read_le64(b, off + 120),
    };
    assert(e@.name =~= entry_name(b@, off as int));
    Ok(e)
}

/// Whether the `k`-th 128-byte record is acceptable.
pub open spec fn record_ok(b: Seq<u8>, k: int) -> bool {
    entry_ok(b, 128 * k)
}

/// The decoded image of the `k`-th 128-byte record.
pub open spec fn record_spec(b: Seq<u8>, k: int) -> GDirEntry {
    entry_spec(b, 128 * k)
}

/// Decodes a directory chain's bytes into its records, one per 128 bytes;
/// trailing bytes shorter than a record are ignored.
pub fn parse_entries(b: &Vec<u8>) -> (r: Result<Vec<DirEntry>, MsiError>)
    ensures
        r is Ok <==> (forall|k: int| 0 <= k < b@.len() / 128 ==> #[trigger] record_ok(b@, k)),
        r is Err ==> r == Err::<Vec<DirEntry>, MsiError>(MsiError::MalformedDirectory),
        r matches Ok(v) ==> {
            &&& v@.len() == b@.len() / 128
            &&& forall|k: int| 0 <= k < v@.len() ==> v@[k]@ == record_spec(b@, k)
        },
{
    let n = b.len() / 128;
    let mut v: Vec<DirEntry> = Vec::new();
    let mut k: usize = 0;
    while k < n
        invariant
            n == b@.len() / 128,
            b@.len() <= usize::MAX,
            k <= n,
            v@.len() == k,
            forall|j: int| 0 <= j < k ==> #[trigger] record_ok(b@, j),
            forall|j: int| 0 <= j < k ==> v@[j]@ == record_spec(b@, j),
        decreases n - k,
    {
        match parse_entry(b, 128 * k) {
            Ok(e) => {
                v.push(e);
            },
            Err(e) => {
                assert(!record_ok(b@, k as int));
                return Err(e);
            },
        }
        k += 1;
    }
    Ok(v)
}

/// The images of an arena of entries.
pub open spec fn views_of(entries: Seq<DirEntry>) -> Seq<GDirEntry> {
    entries.map_values(|e: DirEntry| e@)
}

/// The in-order walk of the sibling tree rooted at `node`: the left
/// subtree, the node, then the right subtree, each node visited at most
/// once; a revisit or a link outside the arena is a malformed directory.
pub open spec fn inorder_spec(
    entries: Seq<GDirEntry>,
    visited: Seq<bool>,
    node: u32,
    fuel: nat,
) -> Result<(Seq<u32>, Seq<bool>), MsiError>
    decreases fuel,
{
    if node == NO_STREAM {
        Ok((seq![], visited))
    } else if fuel == 0 {
        Err(MsiError::MalformedDirectory)
    } else if !(node < entries.len() && node < visited.len()) {
        Err(MsiError::MalformedDirectory)
    } else if visited[node as int] {
        Err(MsiError::MalformedDirectory)
    } else {
        let v1 = visited.update(node as int, true);
        match inorder_spec(entries, v1, entries[node as int].left, (fuel - 1) as nat) {
            Err(e) => Err(e),
            Ok((lo, v2)) => match inorder_spec(
                entries,
                v2,
                entries[node as int].right,
                (fuel - 1) as nat,
            ) {
                Err(e) => Err(e),
                Ok((ro, v3)) => Ok((lo + seq![node] + ro, v3)),
            },
        }
    }
}

/// Every failure of the in-order walk is a malformed directory.
pub proof fn lemma_inorder_err(entries: Seq<GDirEntry>, visited: Seq<bool>, node: u32, fuel: nat)
    requires
        inorder_spec(entries, visited, node, fuel) is Err,
    ensures
        inorder_spec(entries, visited, node, fuel) == Err::<(Seq<u32>, Seq<bool>), MsiError>(
            MsiError::MalformedDirectory,
        ),
    decreases fuel,
{
    if node != NO_STREAM && fuel != 0 && node < entries.len() && node < visited.len()
        && !visited[node as int] {
        let v1 = visited.update(node as int, true);
        let left = inorder_spec(entries, v1, entries[node as int].left, (fuel - 1) as nat);
        if left is Err {
            lemma_inorder_err(entries, v1, entries[node as int].left, (fuel - 1) as nat);
        } else {
            lemma_inorder_err(entries, left->Ok_0.1, entries[node as int].right, (fuel - 1) as nat);
        }
    }
}

/// Walks the sibling tree rooted at `node` in order, appending each
/// visited entry index to `out`.
pub fn inorder_walk(
    entries: &Vec<DirEntry>,
    visited: &mut Vec<bool>,
    node: u32,
    fuel: u32,
    out: &mut Vec<u32>,
) -> (r: Result<(), MsiError>)
    ensures
        match inorder_spec(views_of(entries@), old(visited)@, node, fuel as nat) {
            Ok((o, v)) => r is Ok && final (visited)@ == v && final (out)@ == old(out)@ + o,
            Err(e) => r == Err::<(), MsiError>(e),
        },
    decreases fuel,
{
    let ghost gentries = views_of(entries@);
    if node == NO_STREAM {
        assert(old(out)@ + Seq::<u32>::empty() =~= old(out)@);
        return Ok(());
    }
    if fuel == 0 {
        return Err(MsiError::MalformedDirectory);
    }
    if !((node as usize) < entries.len() && (node as usize) < visited.len()) {
        return Err(MsiError::MalformedDirectory);
    }
    if visited[node as usize] {
        return Err(MsiError::MalformedDirectory);
    }
    visited.set(node as usize, true);
    assert(visited@.len() == old(visited)@.len());
    let ghost v1 = visited@;
    let left = entries[node as usize].left;
    let right = entries[node as usize].right;
    assert(gentries[node as int].left == left && gentries[node as int].right == right);
    proof {
        assert(inorder_spec(gentries, old(visited)@, node, fuel as nat) == (match inorder_spec(
            gentries,
            v1,
            gentries[node as int].left,
            (fuel - 1) as nat,
        ) {
            Err(e) => Err::<(Seq<u32>, Seq<bool>), MsiError>(e),
            Ok((lo, v2)) => match inorder_spec(
                gentries,
                v2,
                gentries[node as int].right,
                (fuel - 1) as nat,
            ) {
                Err(e) => Err::<(Seq<u32>, Seq<bool>), MsiError>(e),
                Ok((ro, v3)) => Ok::<(Seq<u32>, Seq<bool>), MsiError>((lo + seq![node] + ro, v3)),
            },
        }));
    }
    match inorder_walk(entries, visited, left, fuel - 1, out) {
        Err(e) => {
            return Err(e);
        },
        Ok(()) => {},
    }
    out.push(node);
    let ghost mid_out = out@;
    match inorder_walk(entries, visited, right, fuel - 1, out) {
        Err(e) => {
            return Err(e);
        },
        Ok(()) => {},
    }
    proof {
        let lo = inorder_spec(gentries, v1, left, (fuel - 1) as nat)->Ok_0.0;
        let ro = inorder_spec(
            gentries,
            inorder_spec(gentries, v1, left, (fuel - 1) as nat)->Ok_0.1,
            right,
            (fuel - 1) as nat,
        )->Ok_0.0;
        assert(out@ =~= old(out)@ + (lo + seq![node] + ro));
    }
    Ok(())
}

} // verus!
