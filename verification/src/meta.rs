//! The flat metadata record of a package: well-known summary properties
//! decoded into one struct, with the small text transforms they need.
use vstd::prelude::*;
use crate::propset::{GPropValue, PropValue, get_property, prop_spec, find_byte};


verus! {

/// Property id of the codepage.
pub const PID_CODEPAGE: u32 = 1;

/// Property id of the title.
pub const PID_TITLE: u32 = 2;

/// Property id of the subject.
pub const PID_SUBJECT: u32 = 3;

/// Property id of the author.
pub const PID_AUTHOR: u32 = 4;

/// Property id of the comments.
pub const PID_COMMENTS: u32 = 6;

/// Property id of the template, which carries platform and languages.
pub const PID_TEMPLATE: u32 = 7;

/// Property id of the revision number, which carries the package uuid.
pub const PID_REVISION: u32 = 9;

/// Property id of the creation time.
pub const PID_CREATED: u32 = 12;

/// Property id of the word count.
pub const PID_WORD_COUNT: u32 = 15;

/// Property id of the creating application.
pub const PID_APPNAME: u32 = 18;

/// Whether `c` is an ASCII hexadecimal digit.
pub open spec fn is_hex(c: u8) -> bool {
    (0x30 <= c <= 0x39) || (0x41 <= c <= 0x46) || (0x61 <= c <= 0x66)
}

/// Uppercase hex letters folded to lowercase; other bytes unchanged.
pub open spec fn lower_hex(c: u8) -> u8 {
    if 0x41 <= c <= 0x46 {
        (c + 0x20) as u8
    } else {
        c
    }
}

/// Whether `s` is a braced, hyphenated uuid: 38 bytes, hyphens at the
/// four fixed positions, hex digits elsewhere.
pub open spec fn uuid_ok(s: Seq<u8>) -> bool {
    &&& s.len() == 38
    &&& s[0] == 0x7B
    &&& s[37] == 0x7D
    &&& forall|i: int|
        1 <= i < 37 ==> (if i == 9 || i == 14 || i == 19 || i == 24 {
            s[i] == 0x2D
        } else {
            is_hex(#[trigger] s[i])
        })
}

/// The hyphenated lowercase text of a braced uuid; anything else gives
/// the empty sequence.
pub open spec fn uuid_text(s: Seq<u8>) -> Seq<u8> {
    if uuid_ok(s) {
        Seq::new(36, |i: int| lower_hex(s[i + 1]))
    } else {
        Seq::empty()
    }
}

/// Lowercases a braced uuid and strips the braces.
pub fn format_uuid(s: &Vec<u8>) -> (r: Vec<u8>)
    ensures
        r@ == uuid_text(s@),
{
    let _n = s.len();
    if s.len() != 38 || s[0] != 0x7B || s[37] != 0x7D {
        assert(!uuid_ok(s@));
        return Vec::new();
    }
    let mut i: usize = 1;
    while i < 37
        invariant
            1 <= i <= 37,
            s@.len() == 38,
            forall|j: int|
                1 <= j < i ==> (if j == 9 || j == 14 || j == 19 || j == 24 {
                    s@[j] == 0x2D
                } else {
                    is_hex(#[trigger] s@[j])
                }),
        decreases 37 - i,
    {
        let c = s[i];
        if i == 9 || i == 14 || i == 19 || i == 24 {
            if c != 0x2D {
                assert(!uuid_ok(s@));
                return Vec::new();
            }
        } else {
            if !((0x30 <= c && c <= 0x39) || (0x41 <= c && c <= 0x46) || (0x61 <= c && c
                <= 0x66)) {
                assert(!uuid_ok(s@));
                return Vec::new();
            }
        }
        i += 1;
    }
    assert(uuid_ok(s@));
    let mut out: Vec<u8> = Vec::new();
    let mut k: usize = 0;
    while k < 36
        invariant
            k <= 36,
            s@.len() == 38,
            out@.len() == k,
            forall|j: int| 0 <= j < k ==> out@[j] == lower_hex(s@[j + 1]),
        decreases 36 - k,
    {
        let c = s[k + 1];
        if 0x41 <= c && c <= 0x46 {
            out.push(c + 0x20);
        } else {
            out.push(c);
        }
        k += 1;
    }
    assert(out@ =~= uuid_text(s@));
    out
}

/// Finds the first occurrence of `c` at or after `start`.
pub fn find_byte_exec(b: &Vec<u8>, c: u8, start: usize) -> (r: usize)
    requires
        start <= b@.len(),
    ensures
        r == find_byte(b@, c, start as int),
        start <= r <= b@.len(),
{
    let n = b.len();
    let mut j: usize = start;
    while j < n
        invariant
            start <= j <= n,
            n == b@.len(),
            forall|k: int| start <= k < j ==> b@[k] != c,
        decreases n - j,
    {
        if b[j] == c {
            proof {
                lemma_find_byte(b@, c, start as int, j as int);
            }
            return j;
        }
        j += 1;
    }
    proof {
        lemma_find_byte(b@, c, start as int, n as int);
    }
    n
}

/// `find_byte` lands on the first match, or on the length.
proof fn lemma_find_byte(s: Seq<u8>, c: u8, i: int, j: int)
    requires
        0 <= i <= j <= s.len(),
        forall|k: int| i <= k < j ==> s[k] != c,
        j == s.len() || s[j] == c,
    ensures
        find_byte(s, c, i) == j,
    decreases j - i,
{
    if i < j {
        lemma_find_byte(s, c, i + 1, j);
    }
}

/// The comma-separated fields of `s`, in order; an empty input gives one
/// empty field.
pub open spec fn split_commas(s: Seq<u8>) -> Seq<Seq<u8>>
    decreases s.len(),
{
    let p = find_byte(s, 0x2C, 0);
    if 0 <= p < s.len() {
        seq![s.take(p)] + split_commas(s.skip(p + 1))
    } else {
        seq![s]
    }
}

/// Splits `s` on commas.
pub fn split_commas_exec(s: &Vec<u8>) -> (r: Vec<Vec<u8>>)
    ensures
        r@.map_values(|f: Vec<u8>| f@) == split_commas(s@),
{
    let mut out: Vec<Vec<u8>> = Vec::new();
    let mut rest = crate::bytes::copy_range(s, 0, s.len());
    assert(rest@ =~= s@);
    assert(out@.map_values(|f: Vec<u8>| f@) + split_commas(rest@) =~= split_commas(rest@));
    loop
        invariant
            split_commas(s@) == out@.map_values(|f: Vec<u8>| f@) + split_commas(rest@),
        decreases rest@.len(),
    {
        let q = find_byte_exec(&rest, 0x2C, 0);
        let n = rest.len();
        let ghost pre = out@.map_values(|f: Vec<u8>| f@);
        if q < n {
            let field = crate::bytes::copy_range(&rest, 0, q);
            let tail = crate::bytes::copy_range(&rest, q + 1, n);
            assert(field@ =~= rest@.take(q as int));
            assert(tail@ =~= rest@.skip(q + 1));
            out.push(field);
            proof {
                assert(out@.map_values(|f: Vec<u8>| f@) =~= pre + seq![rest@.take(q as int)]);
                assert(forall|a: Seq<Seq<u8>>, b: Seq<Seq<u8>>, c: Seq<Seq<u8>>|
                    (a + b) + c =~= a + (b + c));
            }
            rest = tail;
        } else {
            let ghost last = rest@;
            out.push(rest);
            proof {
                assert(split_commas(last) =~= seq![last]);
                assert(out@.map_values(|f: Vec<u8>| f@) =~= pre + seq![last]);
            }
            return out;
        }
    }
}

/// The bytes of a string property, or empty when absent or of another type.
pub open spec fn str_prop(b: Seq<u8>, id: u32) -> Seq<u8> {
    match prop_spec(b, id) {
        Some(GPropValue::Str(s)) => s,
        _ => Seq::empty(),
    }
}

/// The word count, or the sentinel -1 when the property is absent or of
/// another type; an absent count is never reported as zero.
pub open spec fn word_count_spec(b: Seq<u8>) -> i32 {
    match prop_spec(b, PID_WORD_COUNT) {
        Some(GPropValue::Int(n)) => n,
        _ => -1i32,
    }
}

/// The codepage id, or the container default when absent.
pub open spec fn codepage_id_spec(b: Seq<u8>) -> i32 {
    match prop_spec(b, PID_CODEPAGE) {
        Some(GPropValue::Int(n)) => n,
        _ => 1252i32,
    }
}

/// The summary codepage as a 16-bit id; out-of-range values fall back to
/// the container default.
pub open spec fn summary_cp(b: Seq<u8>) -> u16 {
    let cp = codepage_id_spec(b);
    if 0 <= cp <= 0xFFFF {
        cp as u16
    } else {
        1252u16
    }
}

/// The platform field of the template property: everything before the
/// first semicolon.
pub open spec fn arch_spec(b: Seq<u8>) -> Seq<u8> {
    let tpl = str_prop(b, PID_TEMPLATE);
    tpl.take(find_byte(tpl, 0x3B, 0))
}

/// The language fields of the template property: the comma-separated
/// fields after the first semicolon, or none when no semicolon exists.
pub open spec fn languages_spec(b: Seq<u8>) -> Seq<Seq<u8>> {
    let tpl = str_prop(b, PID_TEMPLATE);
    let p = find_byte(tpl, 0x3B, 0);
    if 0 <= p < tpl.len() {
        split_commas(tpl.skip(p + 1))
    } else {
        Seq::empty()
    }
}

/// What a creation-time property renders to: the timestamp's text when
/// the filetime converts to a representable datetime, empty otherwise.
pub open spec fn created_text_spec(b: Seq<u8>) -> Seq<char> {
    match prop_spec(b, PID_CREATED) {
        Some(GPropValue::Time(ft)) => {
            let secs = ft as int / 10000000 - 11644473600;
            if -377705116800 <= secs <= 253402300799 {
                datetime_text_of(secs)
            } else {
                Seq::empty()
            }
        },
        _ => Seq::empty(),
    }
}

/// What `format_unix_time` returns for a representable timestamp.
pub uninterp spec fn datetime_text_of(secs: int) -> Seq<char>;

/// Relies on time::OffsetDateTime::from_unix_timestamp, which accepts
/// exactly the timestamps of its year -9999..=9999 range, and on its
/// Display rendering, which depends on the timestamp alone.
#[verifier::external_body]
fn format_unix_time(secs: i64) -> (r: Option<String>)
    ensures
        -377705116800 <= secs <= 253402300799 ==> r is Some,
        r is Some ==> -377705203200 <= secs <= 253402300799,
        r matches Some(s) ==> s@ == datetime_text_of(secs as int),
{
    match time::OffsetDateTime::from_unix_timestamp(secs) {
        Ok(dt) => Some(dt.to_string()),
        Err(_) => None,
    }
}

/// The name this reader gives a codepage id; id 0 is treated as the
/// container default.
pub open spec fn codepage_name_spec(id: i32) -> Seq<char> {
    if id == 874 {
        "Windows-874"@
    } else if id == 932 {
        "Shift-JIS"@
    } else if id == 936 {
        "GBK"@
    } else if id == 949 {
        "Windows-949"@
    } else if id == 950 {
        "Big5"@
    } else if id == 1250 {
        "Windows-1250"@
    } else if id == 1251 {
        "Windows-1251"@
    } else if id == 0 || id == 1252 {
        "Windows-1252"@
    } else if id == 1253 {
        "Windows-1253"@
    } else if id == 1254 {
        "Windows-1254"@
    } else if id == 1255 {
        "Windows-1255"@
    } else if id == 1256 {
        "Windows-1256"@
    } else if id == 1257 {
        "Windows-1257"@
    } else if id == 1258 {
        "Windows-1258"@
    } else if id == 20127 {
        "US-ASCII"@
    } else if id == 28591 {
        "ISO-8859-1"@
    } else if id == 65001 {
        "UTF-8"@
    } else {
        "unknown"@
    }
}

/// Names a codepage id.
pub fn codepage_name(id: i32) -> (r: String)
    ensures
        r@ == codepage_name_spec(id),
{
    if id == 874 {
        "Windows-874".to_owned()
    } else if id == 932 {
        "Shift-JIS".to_owned()
    } else if id == 936 {
        "GBK".to_owned()
    } else if id == 949 {
        "Windows-949".to_owned()
    } else if id == 950 {
        "Big5".to_owned()
    } else if id == 1250 {
        "Windows-1250".to_owned()
    } else if id == 1251 {
        "Windows-1251".to_owned()
    } else if id == 0 || id == 1252 {
        "Windows-1252".to_owned()
    } else if id == 1253 {
        "Windows-1253".to_owned()
    } else if id == 1254 {
        "Windows-1254".to_owned()
    } else if id == 1255 {
        "Windows-1255".to_owned()
    } else if id == 1256 {
        "Windows-1256".to_owned()
    } else if id == 1257 {
        "Windows-1257".to_owned()
    } else if id == 1258 {
        "Windows-1258".to_owned()
    } else if id == 20127 {
        "US-ASCII".to_owned()
    } else if id == 28591 {
        "ISO-8859-1".to_owned()
    } else if id == 65001 {
        "UTF-8".to_owned()
    } else {
        "unknown".to_owned()
    }
}

/// The flat metadata record of a package.
pub struct MsiMetaData {
    pub title: Vec<u8>,
    pub subject: Vec<u8>,
    pub author: Vec<u8>,
    /// Hyphenated lowercase package uuid, or empty.
    pub uuid: Vec<u8>,
    /// Platform field of the template property.
    pub arch: Vec<u8>,
    /// Language ids of the template property, comma-split.
    pub languages: Vec<Vec<u8>>,
    /// Rendered creation time, or empty when absent.
    pub created_at: String,
    pub created_with: Vec<u8>,
    pub is_signed: bool,
    /// Name of the summary codepage.
    pub codepage: String,
    /// Decimal text of the summary codepage id.
    pub codepage_id: Vec<u8>,
    /// Word count, or -1 when the property is absent.
    pub word_count: i32,
    pub comments: Vec<u8>,
}

impl Default for MsiMetaData {
    /// The record of a package with nothing known: every text field
    /// empty, the word-count sentinel, and no signature.
    fn default() -> (r: Self)
        ensures
            r.title@.len() == 0,
            r.subject@.len() == 0,
            r.author@.len() == 0,
            r.uuid@.len() == 0,
            r.arch@.len() == 0,
            r.languages@.len() == 0,
            r.created_at@.len() == 0,
            r.created_with@.len() == 0,
            !r.is_signed,
            r.codepage@.len() == 0,
            r.codepage_id@.len() == 0,
            r.word_count == -1,
            r.comments@.len() == 0,
    {
        MsiMetaData {
            title: Vec::new(),
            subject: Vec::new(),
            author: Vec::new(),
            uuid: Vec::new(),
            arch: Vec::new(),
            languages: Vec::new(),
            created_at: String::new(),
            created_with: Vec::new(),
            is_signed: false,
            codepage: String::new(),
            codepage_id: Vec::new(),
            word_count: -1,
            comments: Vec::new(),
        }
    }
}

/// Extracts a string property, or empty bytes when absent.
fn get_str_prop(b: &Vec<u8>, id: u32) -> (r: Vec<u8>)
    ensures
        r@ == str_prop(b@, id),
{
    match get_property(b, id) {
        Some(PropValue::Str(s)) => s,
        _ => Vec::new(),
    }
}

/// Assembles the metadata record from a summary-information stream's
/// bytes and the signature check's result: every well-known property is
/// decoded, prose fields through the stream's recorded codepage, an
/// absent one leaves its field empty, and an absent word count becomes
/// the sentinel -1, never zero.
pub fn assemble_metadata(summary: &Vec<u8>, signed: bool) -> (m: MsiMetaData)
    ensures
        m.title@ == crate::codepage::decoded_text(
            str_prop(summary@, PID_TITLE),
            summary_cp(summary@),
        ),
        m.subject@ == crate::codepage::decoded_text(
            str_prop(summary@, PID_SUBJECT),
            summary_cp(summary@),
        ),
        m.author@ == crate::codepage::decoded_text(
            str_prop(summary@, PID_AUTHOR),
            summary_cp(summary@),
        ),
        m.comments@ == crate::codepage::decoded_text(
            str_prop(summary@, PID_COMMENTS),
            summary_cp(summary@),
        ),
        m.created_with@ == crate::codepage::decoded_text(
            str_prop(summary@, PID_APPNAME),
            summary_cp(summary@),
        ),
        m.uuid@ == uuid_text(str_prop(summary@, PID_REVISION)),
        m.arch@ == arch_spec(summary@),
        m.languages@.map_values(|f: Vec<u8>| f@) == languages_spec(summary@),
        m.created_at@ == created_text_spec(summary@),
        m.is_signed == signed,
        m.codepage@ == codepage_name_spec(codepage_id_spec(summary@)),
        m.codepage_id@ == crate::database::int_text(codepage_id_spec(summary@) as int),
        m.word_count == word_count_spec(summary@),
{
    let cp: i32 = match get_property(summary, PID_CODEPAGE) {
        Some(PropValue::Int(n)) => n,
        _ => 1252i32,
    };
    let cp16: u16 = if 0 <= cp && cp <= 0xFFFF {
        cp as u16
    } else {
        1252
    };
    assert(cp16 == summary_cp(summary@));
    let raw_title = get_str_prop(summary, PID_TITLE);
    let title = crate::codepage::decode_text(&raw_title, cp16);
    let raw_subject = get_str_prop(summary, PID_SUBJECT);
    let subject = crate::codepage::decode_text(&raw_subject, cp16);
    let raw_author = get_str_prop(summary, PID_AUTHOR);
    let author = crate::codepage::decode_text(&raw_author, cp16);
    let raw_comments = get_str_prop(summary, PID_COMMENTS);
    let comments = crate::codepage::decode_text(&raw_comments, cp16);
    let raw_created_with = get_str_prop(summary, PID_APPNAME);
    let created_with = crate::codepage::decode_text(&raw_created_with, cp16);
    let revision = get_str_prop(summary, PID_REVISION);
    let uuid = format_uuid(&revision);
    let template = get_str_prop(summary, PID_TEMPLATE);
    let semi = find_byte_exec(&template, 0x3B, 0);
    let arch = crate::bytes::copy_range(&template, 0, semi);
    assert(arch@ =~= arch_spec(summary@));
    let languages: Vec<Vec<u8>> = if semi < template.len() {
        let tail = crate::bytes::copy_range(&template, semi + 1, template.len());
        assert(tail@ =~= template@.skip(semi + 1));
        split_commas_exec(&tail)
    } else {
        let empty: Vec<Vec<u8>> = Vec::new();
        assert(empty@.map_values(|f: Vec<u8>| f@) =~= Seq::<Seq<u8>>::empty());
        empty
    };
    let created_at: String = match get_property(summary, PID_CREATED) {
        Some(PropValue::Time(ft)) => {
            let secs: i64 = (ft / 10000000) as i64 - 11644473600;
            match format_unix_time(secs) {
                Some(s) => s,
                None => String::new(),
            }
        },
        _ => String::new(),
    };
    let word_count: i32 = match get_property(summary, PID_WORD_COUNT) {
        Some(PropValue::Int(n)) => n,
        _ => -1,
    };
    let cp: i32 = match get_property(summary, PID_CODEPAGE) {
        Some(PropValue::Int(n)) => n,
        _ => 1252,
    };
    MsiMetaData {
        title,
        subject,
        author,
        uuid,
        arch,
        languages,
        created_at,
        created_with,
        is_signed: signed,
        codepage: codepage_name(cp),
        codepage_id: crate::database::itoa_i32(cp),
        word_count,
        comments,
    }
}

} // verus!

