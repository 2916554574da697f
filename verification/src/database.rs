//! Schema decoder and row decoder: the `_Tables` and `_Columns` system
//! streams, each table's fixed-layout row records, and the rendering of
//! typed values to text.
use vstd::prelude::*;
use crate::MsiError;
use crate::bytes::{le16, le32, read_le16, read_le32};
use crate::strpool::PoolEntry;

verus! {

/// A column's type tag.
#[derive(Clone, Copy, Debug, PartialEq, Eq, Structural)]
pub enum ColType {
    /// Two-byte biased integer.
    Int16,
    /// Four-byte biased integer.
    Int32,
    /// Reference into the string pool.
    Str,
    /// Reference into the pool naming an auxiliary stream with the payload.
    Binary,
}

/// One column of a table's schema.
pub struct Column {
    /// Decoded name, from the string pool.
    pub name: Vec<u8>,
    /// 1-based position; row layout follows this order.
    pub number: u16,
    pub tag: ColType,
    pub nullable: bool,
    pub key: bool,
    pub localizable: bool,
}

/// One decoded cell value.
#[derive(Clone, Copy, Debug, PartialEq, Eq, Structural)]
pub enum Value {
    /// Absent value.
    Null,
    /// Decoded biased integer.
    Int(i32),
    /// Resolved 1-based string-pool id, never 0.
    Str(u32),
}

/// The type tag a column's type word selects, if any: bit 11 marks a
/// string-like column (width 0 of those marks a binary payload), other
/// columns are integers of width 2 or 4.
pub open spec fn tag_of_word(w: u16) -> Option<ColType> {
    let width = w % 0x100;
    if (w / 0x800) % 2 == 1 {
        if width == 0 {
            Some(ColType::Binary)
        } else {
            Some(ColType::Str)
        }
    } else if width == 2 {
        Some(ColType::Int16)
    } else if width == 4 {
        Some(ColType::Int32)
    } else {
        None
    }
}

/// Whether the word's nullable bit is set.
pub open spec fn word_nullable(w: u16) -> bool {
    (w / 0x1000) % 2 == 1
}

/// Whether the word's primary-key bit is set.
pub open spec fn word_key(w: u16) -> bool {
    (w / 0x2000) % 2 == 1
}

/// Whether the word's localizable bit is set.
pub open spec fn word_localizable(w: u16) -> bool {
    (w / 0x200) % 2 == 1
}

/// One record of the `_Columns` stream.
pub struct ColRecord {
    /// Pool id of the owning table's name.
    pub table: u32,
    /// Pool id of the column's name.
    pub name_ref: u32,
    /// 1-based column number within its table.
    pub number: u16,
    /// Raw type and attribute word.
    pub typeword: u16,
}

/// Bytes one string-pool reference occupies: three once the pool holds
/// more than 65535 entries, two otherwise.
pub open spec fn ref_width(pool_len: int) -> int {
    if pool_len > 0xFFFF {
        3
    } else {
        2
    }
}

/// The pool reference stored at `off`, two or three bytes wide.
pub open spec fn ref_at(b: Seq<u8>, pool_len: int, off: int) -> u32 {
    if pool_len > 0xFFFF {
        (le16(b, off) + b[off + 2] * 0x10000) as u32
    } else {
        le16(b, off) as u32
    }
}

/// Reads one pool reference at `off`.
fn read_ref(b: &Vec<u8>, off: usize, wide: bool) -> (r: u32)
    requires
        !wide ==> off + 2 <= b@.len(),
        wide ==> off + 3 <= b@.len(),
    ensures
        !wide ==> r == le16(b@, off as int),
        wide ==> r == le16(b@, off as int) + b@[off + 2] * 0x10000,
{
    let _n = b.len();
    if wide {
        read_le16(b, off) as u32 + (b[off + 2] as u32) * 0x10000
    } else {
        read_le16(b, off) as u32
    }
}

/// The table ids from position `i` on: one reference per `ref_width`
/// bytes, each of which must resolve in the pool.
pub open spec fn table_ids_from(b: Seq<u8>, pool_len: int, i: int) -> Result<Seq<u32>, MsiError>
    decreases b.len() as int / ref_width(pool_len) - i,
{
    let w = ref_width(pool_len);
    if i < 0 || i >= b.len() as int / w {
        Ok(seq![])
    } else {
        let id = ref_at(b, pool_len, i * w);
        if id == 0 || id > pool_len {
            Err(MsiError::RowDecodeError)
        } else {
            match table_ids_from(b, pool_len, i + 1) {
                Ok(rest) => Ok(seq![id] + rest),
                Err(e) => Err(e),
            }
        }
    }
}

/// What decoding the `_Tables` stream gives: the ordered id list, or
/// `RowDecodeError` when the length misfits or a reference dangles.
pub open spec fn table_ids_spec(b: Seq<u8>, pool_len: int) -> Result<Seq<u32>, MsiError> {
    if b.len() as int % ref_width(pool_len) != 0 {
        Err(MsiError::RowDecodeError)
    } else {
        table_ids_from(b, pool_len, 0)
    }
}

/// Decodes the `_Tables` stream: a list of pool references naming the
/// tables, in stream order, each resolving to a pool entry.
pub fn parse_tables_stream(b: &Vec<u8>, pool_len: usize) -> (r: Result<Vec<u32>, MsiError>)
    ensures
        match table_ids_spec(b@, pool_len as int) {
            Ok(ids2) => r matches Ok(ids) && ids@ == ids2,
            Err(e) => r == Err::<Vec<u32>, MsiError>(e),
        },
        r matches Ok(ids) ==> forall|i: int|
            0 <= i < ids@.len() ==> 1 <= #[trigger] ids@[i] <= pool_len,
{
    let w: usize = if pool_len > 0xFFFF {
        3
    } else {
        2
    };
    let wide = pool_len > 0xFFFF;
    let n = b.len();
    if n % w != 0 {
        return Err(MsiError::RowDecodeError);
    }
    let count = n / w;
    let mut ids: Vec<u32> = Vec::new();
    let mut off: usize = 0;
    let mut i: usize = 0;
    assert(forall|x: Seq<u32>| Seq::<u32>::empty() + x =~= x);
    while i < count
        invariant
            w == 2 || w == 3,
            wide == (w == 3),
            w == ref_width(pool_len as int),
            n == b@.len(),
            n <= usize::MAX,
            n % w == 0,
            count == n / w,
            i <= count,
            off == i * w,
            forall|i: int| 0 <= i < ids@.len() ==> 1 <= #[trigger] ids@[i] <= pool_len,
            match table_ids_from(b@, pool_len as int, 0) {
                Ok(full) => table_ids_from(b@, pool_len as int, i as int) matches Ok(rest) && ids@
                    + rest == full,
                Err(e) => table_ids_from(b@, pool_len as int, i as int) == Err::<
                    Seq<u32>,
                    MsiError,
                >(e),
            },
        decreases count - i,
    {
        proof {
            assert(i * w + w <= count * w) by (nonlinear_arith)
                requires
                    i < count && w >= 1,
            ;
            assert(count * w == n) by (nonlinear_arith)
                requires
                    count == n / w && n % w == 0 && w >= 1,
            ;
        }
        let id = read_ref(b, off, wide);
        assert(id == ref_at(b@, pool_len as int, i as int * w));
        if id == 0 || id as usize > pool_len {
            assert(table_ids_from(b@, pool_len as int, i as int) == Err::<Seq<u32>, MsiError>(
                MsiError::RowDecodeError,
            ));
            return Err(MsiError::RowDecodeError);
        }
        let ghost pre = ids@;
        ids.push(id);
        proof {
            assert((i + 1) * w == i * w + w) by (nonlinear_arith);
            assert(forall|a: Seq<u32>, bb: Seq<u32>, c: Seq<u32>| (a + bb) + c =~= a + (bb + c));
            assert(pre + seq![id] =~= ids@);
        }
        off += w;
        i += 1;
    }
    assert(table_ids_from(b@, pool_len as int, i as int) == Ok::<Seq<u32>, MsiError>(seq![]));
    assert(ids@ + Seq::<u32>::empty() =~= ids@);
    Ok(ids)
}

/// The record stored at `off`.
pub open spec fn col_record_at(b: Seq<u8>, pool_len: int, off: int) -> ColRecord {
    let w = ref_width(pool_len);
    ColRecord {
        table: ref_at(b, pool_len, off),
        name_ref: ref_at(b, pool_len, off + w),
        number: le16(b, off + 2 * w),
        typeword: le16(b, off + 2 * w + 2),
    }
}

/// The records from position `i` on; both references of each record must
/// resolve in the pool.
pub open spec fn col_records_from(b: Seq<u8>, pool_len: int, i: int) -> Result<
    Seq<ColRecord>,
    MsiError,
>
    decreases b.len() as int / (2 * ref_width(pool_len) + 4) - i,
{
    let rec = 2 * ref_width(pool_len) + 4;
    if i < 0 || i >= b.len() as int / rec {
        Ok(seq![])
    } else {
        let r0 = col_record_at(b, pool_len, i * rec);
        if r0.table == 0 || r0.table > pool_len || r0.name_ref == 0 || r0.name_ref > pool_len {
            Err(MsiError::RowDecodeError)
        } else {
            match col_records_from(b, pool_len, i + 1) {
                Ok(rest) => Ok(seq![r0] + rest),
                Err(e) => Err(e),
            }
        }
    }
}

/// What decoding the `_Columns` stream gives: the ordered record list, or
/// `RowDecodeError` when the length misfits or a reference dangles.
pub open spec fn col_records_spec(b: Seq<u8>, pool_len: int) -> Result<Seq<ColRecord>, MsiError> {
    if b.len() as int % (2 * ref_width(pool_len) + 4) != 0 {
        Err(MsiError::RowDecodeError)
    } else {
        col_records_from(b, pool_len, 0)
    }
}

/// Decodes the `_Columns` stream: records of a table reference, a column
/// name reference, the column number and the type word, in that order;
/// every reference must resolve in the pool.
pub fn parse_columns_stream(b: &Vec<u8>, pool_len: usize) -> (r: Result<Vec<ColRecord>, MsiError>)
    ensures
        match col_records_spec(b@, pool_len as int) {
            Ok(recs2) => r matches Ok(recs) && recs@ == recs2,
            Err(e) => r == Err::<Vec<ColRecord>, MsiError>(e),
        },
        r matches Ok(recs) ==> forall|i: int|
            0 <= i < recs@.len() ==> 1 <= (#[trigger] recs@[i]).table <= pool_len && 1
                <= recs@[i].name_ref <= pool_len,
{
    let w: usize = if pool_len > 0xFFFF {
        3
    } else {
        2
    };
    let wide = pool_len > 0xFFFF;
    let rec = 2 * w + 4;
    let n = b.len();
    if n % rec != 0 {
        return Err(MsiError::RowDecodeError);
    }
    let count = n / rec;
    let mut recs: Vec<ColRecord> = Vec::new();
    let mut off: usize = 0;
    let mut ii: usize = 0;
    assert(forall|x: Seq<ColRecord>| Seq::<ColRecord>::empty() + x =~= x);
    while ii < count
        invariant
            w == 2 || w == 3,
            wide == (w == 3),
            w == ref_width(pool_len as int),
            rec == 2 * w + 4,
            n == b@.len(),
            n <= usize::MAX,
            n % rec == 0,
            count == n / rec,
            ii <= count,
            off == ii * rec,
            forall|i: int|
                0 <= i < recs@.len() ==> 1 <= (#[trigger] recs@[i]).table <= pool_len && 1
                    <= recs@[i].name_ref <= pool_len,
            match col_records_from(b@, pool_len as int, 0) {
                Ok(full) => col_records_from(b@, pool_len as int, ii as int) matches Ok(rest)
                    && recs@ + rest == full,
                Err(e) => col_records_from(b@, pool_len as int, ii as int) == Err::<
                    Seq<ColRecord>,
                    MsiError,
                >(e),
            },
        decreases count - ii,
    {
        proof {
            assert(ii * rec + rec <= count * rec) by (nonlinear_arith)
                requires
                    ii < count && rec >= 1,
            ;
            assert(count * rec == n) by (nonlinear_arith)
                requires
                    count == n / rec && n % rec == 0 && rec >= 1,
            ;
        }
        let table = read_ref(b, off, wide);
        let name_ref = read_ref(b, off + w, wide);
        let number = read_le16(b, off + 2 * w);
        let typeword = read_le16(b, off + 2 * w + 2);
        let ghost r0 = col_record_at(b@, pool_len as int, ii as int * rec);
        assert(table == r0.table && name_ref == r0.name_ref && number == r0.number && typeword
            == r0.typeword);
        if table == 0 || table as usize > pool_len || name_ref == 0 || name_ref as usize
            > pool_len {
            assert(col_records_from(b@, pool_len as int, ii as int) == Err::<
                Seq<ColRecord>,
                MsiError,
            >(MsiError::RowDecodeError));
            return Err(MsiError::RowDecodeError);
        }
        let ghost pre = recs@;
        recs.push(ColRecord { table, name_ref, number, typeword });
        proof {
            assert((ii + 1) * rec == ii * rec + rec) by (nonlinear_arith);
            assert(forall|a: Seq<ColRecord>, bb: Seq<ColRecord>, c: Seq<ColRecord>|
                (a + bb) + c =~= a + (bb + c));
            assert(pre + seq![r0] =~= recs@);
        }
        off += rec;
        ii += 1;
    }
    assert(col_records_from(b@, pool_len as int, ii as int) == Ok::<Seq<ColRecord>, MsiError>(
        seq![],
    ));
    assert(recs@ + Seq::<ColRecord>::empty() =~= recs@);
    Ok(recs)
}

/// The mathematical image of a column.
pub ghost struct GColumn {
    pub name: Seq<u8>,
    pub number: u16,
    pub tag: ColType,
    pub nullable: bool,
    pub key: bool,
    pub localizable: bool,
}

impl View for Column {
    type V = GColumn;

    open spec fn view(&self) -> GColumn {
        GColumn {
            name: self.name@,
            number: self.number,
            tag: self.tag,
            nullable: self.nullable,
            key: self.key,
            localizable: self.localizable,
        }
    }
}

/// The column a record defines, names resolved in the pool; a type word
/// with no known tag defines none.
pub open spec fn column_of_record(rec: ColRecord, pool: Seq<crate::strpool::GPoolEntry>) -> Option<
    GColumn,
> {
    match tag_of_word(rec.typeword) {
        None => None,
        Some(tag) => Some(
            GColumn {
                name: pool[rec.name_ref - 1].text,
                number: rec.number,
                tag,
                nullable: word_nullable(rec.typeword),
                key: word_key(rec.typeword),
                localizable: word_localizable(rec.typeword),
            },
        ),
    }
}

/// The first record at or after `j` naming `table_id` with column
/// number `k`.
pub open spec fn find_rec(recs: Seq<ColRecord>, table_id: u32, k: int, j: int) -> Option<int>
    decreases recs.len() - j,
{
    if j < 0 || j >= recs.len() {
        None
    } else if recs[j].table == table_id && recs[j].number == k {
        Some(j)
    } else {
        find_rec(recs, table_id, k, j + 1)
    }
}

/// How many records from `j` on name `table_id`.
pub open spec fn count_matching(recs: Seq<ColRecord>, table_id: u32, j: int) -> int
    decreases recs.len() - j,
{
    if j < 0 || j >= recs.len() {
        0
    } else {
        (if recs[j].table == table_id {
            1int
        } else {
            0int
        }) + count_matching(recs, table_id, j + 1)
    }
}

/// A found record carries the table id and number it was found by.
proof fn lemma_find_rec_found(recs: Seq<ColRecord>, table_id: u32, k: int, j0: int, j: int)
    requires
        0 <= j0,
        find_rec(recs, table_id, k, j0) == Some(j),
    ensures
        j0 <= j < recs.len(),
        recs[j].table == table_id,
        recs[j].number == k,
    decreases recs.len() - j0,
{
    if j0 < recs.len() && !(recs[j0].table == table_id && recs[j0].number == k) {
        lemma_find_rec_found(recs, table_id, k, j0 + 1, j);
    }
}

/// Finds the first record naming `table_id` with column number `k`.
fn find_matching(recs: &Vec<ColRecord>, table_id: u32, k: usize) -> (r: Option<usize>)
    ensures
        match r {
            Some(j) => j < recs@.len() && find_rec(recs@, table_id, k as int, 0) == Some(j as int),
            None => find_rec(recs@, table_id, k as int, 0) is None,
        },
{
    let n = recs.len();
    let mut j: usize = 0;
    while j < n
        invariant
            j <= n,
            n == recs@.len(),
            find_rec(recs@, table_id, k as int, 0) == find_rec(recs@, table_id, k as int, j as int),
        decreases n - j,
    {
        if recs[j].table == table_id && recs[j].number as usize == k {
            assert(find_rec(recs@, table_id, k as int, j as int) == Some(j as int));
            return Some(j);
        }
        j += 1;
    }
    assert(find_rec(recs@, table_id, k as int, j as int) is None);
    None
}

/// The columns of one table, ordered by column number ascending: for each
/// number `k` from 1 up to the count of records naming the table, the
/// first such record with number `k` defines column `k`; a missing number
/// or an unknown type word fails the table's schema.
#[verifier::rlimit(60)]
pub fn columns_for_table(recs: &Vec<ColRecord>, table_id: u32, pool: &Vec<PoolEntry>) -> (r: Result<
    Vec<Column>,
    MsiError,
>)
    requires
        forall|i: int|
            0 <= i < recs@.len() ==> 1 <= (#[trigger] recs@[i]).name_ref <= pool@.len(),
    ensures
        r is Err ==> r == Err::<Vec<Column>, MsiError>(MsiError::UnknownColumnType),
        r is Ok <==> (forall|k: int|
            1 <= k <= count_matching(recs@, table_id, 0) ==> ((#[trigger] find_rec(
                recs@,
                table_id,
                k,
                0,
            )) matches Some(j) && column_of_record(recs@[j], crate::strpool::pool_views(pool@))
                is Some)),
        r matches Ok(cols) ==> {
            &&& cols@.len() == count_matching(recs@, table_id, 0)
            &&& forall|i: int|
                0 <= i < cols@.len() ==> (#[trigger] cols@[i])@ == column_of_record(
                    recs@[find_rec(recs@, table_id, i + 1, 0)->0],
                    crate::strpool::pool_views(pool@),
                )->0
        },
        r matches Ok(cols) ==> forall|i: int|
            0 <= i < cols@.len() ==> (#[trigger] cols@[i].number) == i + 1,
{
    let mut count: usize = 0;
    let n = recs.len();
    let mut i: usize = 0;
    while i < n
        invariant
            n == recs@.len(),
            count <= i <= n,
            count_matching(recs@, table_id, 0) == count + count_matching(
                recs@,
                table_id,
                i as int,
            ),
        decreases n - i,
    {
        if recs[i].table == table_id {
            count += 1;
        }
        i += 1;
    }
    assert(count_matching(recs@, table_id, n as int) == 0);
    let mut cols: Vec<Column> = Vec::new();
    let mut k: usize = 0;
    while k < count
        invariant
            count <= n,
            k <= count,
            n == recs@.len(),
            count == count_matching(recs@, table_id, 0),
            forall|i: int|
                0 <= i < recs@.len() ==> 1 <= (#[trigger] recs@[i]).name_ref <= pool@.len(),
            cols@.len() == k,
            forall|kk: int|
                1 <= kk <= k ==> ((#[trigger] find_rec(recs@, table_id, kk, 0)) matches Some(j)
                    && column_of_record(recs@[j], crate::strpool::pool_views(pool@)) is Some),
            forall|i: int|
                0 <= i < cols@.len() ==> (#[trigger] cols@[i])@ == column_of_record(
                    recs@[find_rec(recs@, table_id, i + 1, 0)->0],
                    crate::strpool::pool_views(pool@),
                )->0,
            forall|i: int| 0 <= i < cols@.len() ==> (#[trigger] cols@[i].number) == i + 1,
        decreases count - k,
    {
        let j = match find_matching(recs, table_id, k + 1) {
            Some(j) => j,
            None => {
                assert(find_rec(recs@, table_id, k as int + 1, 0) is None);
                return Err(MsiError::UnknownColumnType);
            },
        };
        proof {
            lemma_find_rec_found(recs@, table_id, k as int + 1, 0, j as int);
        }
        let w = recs[j].typeword;
        let width = w % 0x100;
        let string_like = (w / 0x800) % 2 == 1;
        let tag = if string_like {
            if width == 0 {
                ColType::Binary
            } else {
                ColType::Str
            }
        } else if width == 2 {
            ColType::Int16
        } else if width == 4 {
            ColType::Int32
        } else {
            assert(tag_of_word(recs@[j as int].typeword) is None);
            assert(column_of_record(recs@[j as int], crate::strpool::pool_views(pool@)) is None);
            return Err(MsiError::UnknownColumnType);
        };
        assert(tag_of_word(recs@[j as int].typeword) == Some(tag));
        let name_idx = recs[j].name_ref as usize - 1;
        let src = &pool[name_idx].text;
        let name = crate::bytes::copy_range(src, 0, src.len());
        assert(name@ =~= src@);
        let col = Column {
            name,
            number: recs[j].number,
            tag,
            nullable: (w / 0x1000) % 2 == 1,
            key: (w / 0x2000) % 2 == 1,
            localizable: (w / 0x200) % 2 == 1,
        };
        assert(col@ == column_of_record(recs@[j as int], crate::strpool::pool_views(pool@))->0);
        cols.push(col);
        k += 1;
    }
    Ok(cols)
}

/// Bytes one value of the column occupies in a row record.
pub open spec fn col_width(tag: ColType, pool_len: int) -> int {
    match tag {
        ColType::Int16 => 2,
        ColType::Int32 => 4,
        ColType::Str => ref_width(pool_len),
        ColType::Binary => ref_width(pool_len),
    }
}

/// Bytes of the first `j` columns of one row record.
pub open spec fn width_prefix(cols: Seq<Column>, pool_len: int, j: int) -> int
    decreases j,
{
    if j <= 0 {
        0
    } else {
        width_prefix(cols, pool_len, j - 1) + col_width(cols[j - 1].tag, pool_len)
    }
}

/// Bytes of one full row record.
pub open spec fn row_width(cols: Seq<Column>, pool_len: int) -> int {
    width_prefix(cols, pool_len, cols.len() as int)
}

/// Column prefixes only grow.
proof fn lemma_width_prefix_mono(cols: Seq<Column>, pool_len: int, j: int, k: int)
    requires
        0 <= j <= k,
    ensures
        width_prefix(cols, pool_len, j) <= width_prefix(cols, pool_len, k),
    decreases k,
{
    if j < k {
        lemma_width_prefix_mono(cols, pool_len, j, k - 1);
    }
}

/// The value one cell decodes to: a biased integer or a pool reference,
/// zero meaning an absent value.
pub open spec fn cell_value(b: Seq<u8>, off: int, tag: ColType, pool_len: int) -> Value {
    match tag {
        ColType::Int16 => {
            let stored = le16(b, off);
            if stored == 0 {
                Value::Null
            } else {
                Value::Int((stored - 0x8000) as i32)
            }
        },
        ColType::Int32 => {
            let stored = le32(b, off);
            if stored == 0 {
                Value::Null
            } else {
                Value::Int((stored - 0x80000000) as i32)
            }
        },
        ColType::Str | ColType::Binary => {
            let id = ref_at(b, pool_len, off);
            if id == 0 {
                Value::Null
            } else {
                Value::Str(id)
            }
        },
    }
}

/// Whether one cell's reference resolves: only string-like cells can fail.
pub open spec fn cell_ok(b: Seq<u8>, off: int, tag: ColType, pool_len: int) -> bool {
    match tag {
        ColType::Str | ColType::Binary => ref_at(b, pool_len, off) <= pool_len,
        _ => true,
    }
}

/// Whether a table stream decodes: a degenerate or oversized layout only
/// for an empty stream; otherwise whole records with every cell resolving.
pub open spec fn rows_decodable(b: Seq<u8>, cols: Seq<Column>, pool_len: int) -> bool {
    let rw = row_width(cols, pool_len);
    if rw == 0 || rw > 0xFFFF {
        b.len() == 0
    } else {
        b.len() as int % rw == 0 && forall|i: int, j: int|
            0 <= i < b.len() as int / rw && 0 <= j < cols.len() ==> #[trigger] cell_ok(
                b,
                i * rw + width_prefix(cols, pool_len, j),
                cols[j].tag,
                pool_len,
            )
    }
}

/// Decodes a table's data stream into typed rows: records of the fixed
/// row layout in on-disk order, each column decoded at its own offset in
/// column order, so that row `i`, column `j` holds exactly the cell at
/// byte `i * row_width + width_prefix(j)`. Fails with `RowDecodeError`
/// iff the stream is not `rows_decodable`: truncated mid-record, or a
/// reference dangles.
#[verifier::rlimit(80)]
pub fn decode_rows(b: &Vec<u8>, cols: &Vec<Column>, pool_len: usize) -> (r: Result<
    Vec<Vec<Value>>,
    MsiError,
>)
    ensures
        r is Err ==> r == Err::<Vec<Vec<Value>>, MsiError>(MsiError::RowDecodeError),
        r is Ok <==> rows_decodable(b@, cols@, pool_len as int),
        r matches Ok(rows) ==> {
            let rw = row_width(cols@, pool_len as int);
            &&& rows@.len() == (if rw == 0 || rw > 0xFFFF {
                0int
            } else {
                b@.len() as int / rw
            })
            &&& forall|i: int|
                0 <= i < rows@.len() ==> (#[trigger] rows@[i])@.len() == cols@.len()
            &&& forall|i: int, j: int|
                0 <= i < rows@.len() && 0 <= j < cols@.len() ==> (#[trigger] rows@[i]@[j])
                    == cell_value(
                    b@,
                    i * rw + width_prefix(cols@, pool_len as int, j),
                    cols@[j].tag,
                    pool_len as int,
                )
        },
        r matches Ok(rows) ==> forall|i: int, j: int|
            0 <= i < rows@.len() && 0 <= j < rows@[i]@.len() ==> ((#[trigger] rows@[i]@[j]) matches
                Value::Str(id) ==> 1 <= id <= pool_len),
{
    let wide = pool_len > 0xFFFF;
    let w: usize = if wide {
        3
    } else {
        2
    };
    let ncols = cols.len();
    let mut row_size: usize = 0;
    let mut ci: usize = 0;
    while ci < ncols
        invariant
            ncols == cols@.len(),
            ci <= ncols,
            w == ref_width(pool_len as int),
            row_size == width_prefix(cols@, pool_len as int, ci as int),
            row_size <= 0xFFFF,
        decreases ncols - ci,
    {
        let cw: usize = match cols[ci].tag {
            ColType::Int16 => 2,
            ColType::Int32 => 4,
            ColType::Str => w,
            ColType::Binary => w,
        };
        row_size += cw;
        ci += 1;
        if row_size > 0xFFFF {
            proof {
                lemma_width_prefix_mono(cols@, pool_len as int, ci as int, ncols as int);
            }
            if b.len() == 0 {
                assert(rows_decodable(b@, cols@, pool_len as int));
                return Ok(Vec::new());
            }
            assert(!rows_decodable(b@, cols@, pool_len as int));
            return Err(MsiError::RowDecodeError);
        }
    }
    if row_size == 0 {
        if b.len() == 0 {
            assert(rows_decodable(b@, cols@, pool_len as int));
            return Ok(Vec::new());
        }
        assert(!rows_decodable(b@, cols@, pool_len as int));
        return Err(MsiError::RowDecodeError);
    }
    let n = b.len();
    if n % row_size != 0 {
        assert(!rows_decodable(b@, cols@, pool_len as int));
        return Err(MsiError::RowDecodeError);
    }
    let nrows = n / row_size;
    let mut rows: Vec<Vec<Value>> = Vec::new();
    let mut ri: usize = 0;
    let mut off: usize = 0;
    while ri < nrows
        invariant
            ncols == cols@.len(),
            n == b@.len(),
            n <= usize::MAX,
            ri <= nrows,
            nrows == n / row_size,
            1 <= row_size <= 0xFFFF,
            n % row_size == 0,
            off == ri * row_size,
            w == ref_width(pool_len as int),
            wide == (pool_len > 0xFFFF),
            row_size == row_width(cols@, pool_len as int),
            rows@.len() == ri,
            forall|i: int| 0 <= i < rows@.len() ==> (#[trigger] rows@[i])@.len() == cols@.len(),
            forall|i: int, j: int|
                0 <= i < rows@.len() && 0 <= j < cols@.len() ==> (#[trigger] rows@[i]@[j])
                    == cell_value(
                    b@,
                    i * row_size + width_prefix(cols@, pool_len as int, j),
                    cols@[j].tag,
                    pool_len as int,
                ),
            forall|i: int, j: int|
                0 <= i < rows@.len() && 0 <= j < cols@.len() ==> #[trigger] cell_ok(
                    b@,
                    i * row_size + width_prefix(cols@, pool_len as int, j),
                    cols@[j].tag,
                    pool_len as int,
                ),
        decreases nrows - ri,
    {
        proof {
            assert(ri * row_size + row_size <= nrows * row_size) by (nonlinear_arith)
                requires
                    ri < nrows && row_size >= 1,
            ;
            assert(nrows * row_size == n) by (nonlinear_arith)
                requires
                    nrows == n / row_size && n % row_size == 0 && row_size >= 1,
            ;
        }
        let mut row: Vec<Value> = Vec::new();
        let mut pos: usize = off;
        let mut cj: usize = 0;
        while cj < ncols
            invariant
                ncols == cols@.len(),
                n == b@.len(),
                n <= usize::MAX,
                cj <= ncols,
                row@.len() == cj,
                off + row_size <= n,
                off == ri * row_size,
                ri < nrows,
                nrows == n / row_size,
                n % row_size == 0,
                1 <= row_size,
                pos == off + width_prefix(cols@, pool_len as int, cj as int),
                row_size == row_width(cols@, pool_len as int),
                row_size <= 0xFFFF,
                w == ref_width(pool_len as int),
                wide == (pool_len > 0xFFFF),
                forall|j: int|
                    0 <= j < row@.len() ==> (#[trigger] row@[j]) == cell_value(
                        b@,
                        off + width_prefix(cols@, pool_len as int, j),
                        cols@[j].tag,
                        pool_len as int,
                    ),
                forall|j: int|
                    0 <= j < row@.len() ==> #[trigger] cell_ok(
                        b@,
                        off + width_prefix(cols@, pool_len as int, j),
                        cols@[j].tag,
                        pool_len as int,
                    ),
            decreases ncols - cj,
        {
            let cw: usize = match cols[cj].tag {
                ColType::Int16 => 2,
                ColType::Int32 => 4,
                ColType::Str => w,
                ColType::Binary => w,
            };
            proof {
                assert(width_prefix(cols@, pool_len as int, cj as int + 1) == width_prefix(
                    cols@,
                    pool_len as int,
                    cj as int,
                ) + cw);
                lemma_width_prefix_mono(cols@, pool_len as int, cj as int + 1, ncols as int);
            }
            assert(pos + cw <= off + row_size);
            let v: Value = match cols[cj].tag {
                ColType::Int16 => {
                    let stored = read_le16(b, pos);
                    if stored == 0 {
                        Value::Null
                    } else {
                        Value::Int(stored as i32 - 0x8000)
                    }
                },
                ColType::Int32 => {
                    let stored = read_le32(b, pos);
                    if stored == 0 {
                        Value::Null
                    } else {
                        Value::Int((stored as i64 - 0x80000000i64) as i32)
                    }
                },
                ColType::Str | ColType::Binary => {
                    let id = read_ref(b, pos, wide);
                    assert(id == ref_at(b@, pool_len as int, pos as int));
                    if id == 0 {
                        Value::Null
                    } else if id as usize > pool_len {
                        assert(!cell_ok(
                            b@,
                            ri as int * row_size + width_prefix(
                                cols@,
                                pool_len as int,
                                cj as int,
                            ),
                            cols@[cj as int].tag,
                            pool_len as int,
                        ));
                        assert(!rows_decodable(b@, cols@, pool_len as int));
                        return Err(MsiError::RowDecodeError);
                    } else {
                        Value::Str(id)
                    }
                },
            };
            assert(v == cell_value(b@, pos as int, cols@[cj as int].tag, pool_len as int));
            assert(cell_ok(b@, pos as int, cols@[cj as int].tag, pool_len as int));
            row.push(v);
            pos += cw;
            cj += 1;
        }
        rows.push(row);
        proof {
            assert((ri + 1) * row_size == ri * row_size + row_size) by (nonlinear_arith);
        }
        ri += 1;
        off += row_size;
    }
    assert(rows_decodable(b@, cols@, pool_len as int));
    proof {
        assert forall|i: int, j: int|
            0 <= i < rows@.len() && 0 <= j < rows@[i]@.len() implies ((#[trigger] rows@[i]@[j])
            matches Value::Str(id) ==> 1 <= id <= pool_len) by {
            assert(rows@[i]@[j] == cell_value(
                b@,
                i * row_size + width_prefix(cols@, pool_len as int, j),
                cols@[j].tag,
                pool_len as int,
            ));
            assert(cell_ok(
                b@,
                i * row_size + width_prefix(cols@, pool_len as int, j),
                cols@[j].tag,
                pool_len as int,
            ));
        }
    }
    Ok(rows)
}

/// The decimal digits of `n`, most significant first.
pub open spec fn dec_rep(n: int) -> Seq<u8>
    decreases n,
{
    if n < 10 {
        seq![(0x30 + (if n >= 0 {
            n
        } else {
            0
        })) as u8]
    } else {
        dec_rep(n / 10).push((0x30 + n % 10) as u8)
    }
}

/// The decimal text of `n`, with a leading minus sign when negative.
pub open spec fn int_text(n: int) -> Seq<u8> {
    if n < 0 {
        seq![0x2Du8] + dec_rep(-n)
    } else {
        dec_rep(n)
    }
}

/// Renders a non-negative number in decimal.
fn itoa_u64(n: u64) -> (r: Vec<u8>)
    ensures
        r@ == dec_rep(n as int),
    decreases n,
{
    if n < 10 {
        let mut v: Vec<u8> = Vec::new();
        v.push(0x30 + n as u8);
        assert(v@ =~= dec_rep(n as int));
        v
    } else {
        let mut v = itoa_u64(n / 10);
        v.push(0x30 + (n % 10) as u8);
        v
    }
}

/// Renders an integer in decimal, minus sign included.
pub fn itoa_i32(n: i32) -> (r: Vec<u8>)
    ensures
        r@ == int_text(n as int),
{
    if n < 0 {
        let mag: u64 = (-(n as i64)) as u64;
        let mut v: Vec<u8> = Vec::new();
        v.push(0x2D);
        let mut digits = itoa_u64(mag);
        v.append(&mut digits);
        assert(v@ =~= int_text(n as int));
        v
    } else {
        itoa_u64(n as u64)
    }
}

/// What a cell renders to: `NULL` for an absent value, decimal text for
/// an integer, and the pool entry's bytes for a string reference.
pub open spec fn cell_text(v: Value, pool: Seq<crate::strpool::GPoolEntry>) -> Seq<u8> {
    match v {
        Value::Null => seq![0x4Eu8, 0x55u8, 0x4Cu8, 0x4Cu8],
        Value::Int(n) => int_text(n as int),
        Value::Str(id) => if 1 <= id <= pool.len() {
            pool[id - 1].text
        } else {
            seq![]
        },
    }
}

/// Renders one cell.
pub fn render_cell(v: &Value, pool: &Vec<PoolEntry>) -> (r: Vec<u8>)
    ensures
        r@ == cell_text(*v, crate::strpool::pool_views(pool@)),
{
    match v {
        Value::Null => {
            let mut out: Vec<u8> = Vec::new();
            out.push(0x4E);
            out.push(0x55);
            out.push(0x4C);
            out.push(0x4C);
            assert(out@ =~= seq![0x4Eu8, 0x55u8, 0x4Cu8, 0x4Cu8]);
            out
        },
        Value::Int(n) => itoa_i32(*n),
        Value::Str(id) => {
            if *id >= 1 && (*id as usize) <= pool.len() {
                let src = &pool[*id as usize - 1].text;
                let mut out: Vec<u8> = Vec::new();
                let m = src.len();
                let mut c: usize = 0;
                while c < m
                    invariant
                        c <= m,
                        m == src@.len(),
                        out@ == src@.subrange(0, c as int),
                    decreases m - c,
                {
                    out.push(src[c]);
                    c += 1;
                    assert(src@.subrange(0, c as int) =~= src@.subrange(0, c - 1).push(
                        src@[c - 1],
                    ));
                }
                assert(out@ =~= src@);
                out
            } else {
                Vec::new()
            }
        },
    }
}

} // verus!
