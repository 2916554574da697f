use msilens::database::{decode_rows, itoa_i32, render_cell, ColType, Column, Value};
use msilens::ident::{decode_name, decode_name_units, encode_name};
use msilens::meta::{assemble_metadata, codepage_name, format_uuid};
use msilens::sanitize_stream_name;
use msilens::strpool::{parse_pool, PoolEntry};
use msilens::MsiError;

fn units(s: &str) -> Vec<u16> {
    s.encode_utf16().collect()
}

#[test]
fn codec_round_trip_plain_name() {
    let name = units("Feature");
    assert_eq!(decode_name_units(&encode_name(&name)), name);
}

#[test]
fn codec_round_trip_full_alphabet() {
    let name = units("ABCXYZabcxyz0189._Za_9");
    assert_eq!(decode_name_units(&encode_name(&name)), name);
}

#[test]
fn codec_round_trip_odd_length() {
    let name = units("A");
    assert_eq!(decode_name_units(&encode_name(&name)), name);
}

#[test]
fn codec_packs_pairs() {
    // 'A' -> 10, 'B' -> 11: one packed unit 0x3800 + 10 + 64*11.
    assert_eq!(encode_name(&units("AB")), vec![0x3ACA]);
    // A single trailing symbol gets the one-symbol range.
    assert_eq!(encode_name(&units("A")), vec![0x480A]);
}

#[test]
fn codec_passes_unsupported_characters_through() {
    let name = units("has space");
    let enc = encode_name(&name);
    assert!(enc.contains(&(b' ' as u16)));
    assert_eq!(decode_name_units(&enc), name);
}

#[test]
fn decode_name_strips_marker() {
    let mut stored = vec![0x4840u16];
    stored.extend(encode_name(&units("Tbl")));
    assert_eq!(decode_name(&stored), units("Tbl"));
}

fn str_col(name: &[u8], number: u16, key: bool) -> Column {
    Column {
        name: name.to_vec(),
        number,
        tag: ColType::Str,
        nullable: false,
        key,
        localizable: false,
    }
}

fn int_col(name: &[u8], number: u16, tag: ColType) -> Column {
    Column {
        name: name.to_vec(),
        number,
        tag,
        nullable: true,
        key: false,
        localizable: false,
    }
}

#[test]
fn rows_have_one_value_per_column() {
    let cols = vec![
        str_col(b"Name", 1, true),
        int_col(b"Level", 2, ColType::Int16),
        int_col(b"Cost", 3, ColType::Int32),
    ];
    // Two rows of (2 + 2 + 4) bytes.
    let mut b = Vec::new();
    for row in [(1u16, 0x8005u16, 0x8000_0064u32), (2, 0, 0)] {
        b.extend_from_slice(&row.0.to_le_bytes());
        b.extend_from_slice(&row.1.to_le_bytes());
        b.extend_from_slice(&row.2.to_le_bytes());
    }
    let rows = decode_rows(&b, &cols, 4).unwrap();
    assert_eq!(rows.len(), 2);
    for row in &rows {
        assert_eq!(row.len(), cols.len());
    }
    assert_eq!(rows[0], vec![Value::Str(1), Value::Int(5), Value::Int(100)]);
    assert_eq!(rows[1], vec![Value::Str(2), Value::Null, Value::Null]);
}

#[test]
fn string_references_resolve_or_are_null() {
    let cols = vec![str_col(b"Name", 1, true)];
    let pool_len = 3usize;
    // Refs 1..=3 and 0 are fine; 4 is out of the pool.
    let mut b = Vec::new();
    for cell in [1u16, 3, 0] {
        b.extend_from_slice(&cell.to_le_bytes());
    }
    let rows = decode_rows(&b, &cols, pool_len).unwrap();
    for row in &rows {
        for v in row {
            match v {
                Value::Str(id) => assert!(*id >= 1 && (*id as usize) <= pool_len),
                _ => {}
            }
        }
    }
    let bad = 4u16.to_le_bytes().to_vec();
    assert!(matches!(
        decode_rows(&bad, &cols, pool_len),
        Err(MsiError::RowDecodeError)
    ));
}

#[test]
fn truncated_row_record_fails() {
    let cols = vec![int_col(b"Cost", 1, ColType::Int32)];
    let b = vec![1u8, 2, 3];
    assert!(matches!(
        decode_rows(&b, &cols, 0),
        Err(MsiError::RowDecodeError)
    ));
}

fn pool_of(entries: &[&str]) -> Vec<PoolEntry> {
    let mut pool = Vec::new();
    let mut data = Vec::new();
    pool.extend_from_slice(&1252u16.to_le_bytes());
    pool.extend_from_slice(&0u16.to_le_bytes());
    for e in entries {
        pool.extend_from_slice(&(e.len() as u16).to_le_bytes());
        pool.extend_from_slice(&1u16.to_le_bytes());
        data.extend_from_slice(e.as_bytes());
    }
    parse_pool(&pool, &data).unwrap()
}

#[test]
fn pool_slices_data_by_lengths() {
    let pool = pool_of(&["Feature", "Title"]);
    assert_eq!(pool.len(), 2);
    assert_eq!(pool[0].text, b"Feature".to_vec());
    assert_eq!(pool[1].text, b"Title".to_vec());
    assert_eq!(pool[0].refcount, 1);
}

#[test]
fn pool_overrun_is_a_mismatch() {
    let mut pool = Vec::new();
    pool.extend_from_slice(&1252u16.to_le_bytes());
    pool.extend_from_slice(&0u16.to_le_bytes());
    pool.extend_from_slice(&10u16.to_le_bytes());
    pool.extend_from_slice(&1u16.to_le_bytes());
    let data = b"short".to_vec();
    assert!(matches!(
        parse_pool(&pool, &data),
        Err(MsiError::StringPoolMismatch)
    ));
}

#[test]
fn cells_render_to_text() {
    let pool = pool_of(&["Alpha"]);
    assert_eq!(render_cell(&Value::Null, &pool), b"NULL".to_vec());
    assert_eq!(render_cell(&Value::Int(-5), &pool), b"-5".to_vec());
    assert_eq!(render_cell(&Value::Int(0), &pool), b"0".to_vec());
    assert_eq!(render_cell(&Value::Str(1), &pool), b"Alpha".to_vec());
}

#[test]
fn decimal_rendering_is_exact() {
    assert_eq!(itoa_i32(0), b"0".to_vec());
    assert_eq!(itoa_i32(2147483647), b"2147483647".to_vec());
    assert_eq!(itoa_i32(-2147483648), b"-2147483648".to_vec());
    assert_eq!(itoa_i32(1052), b"1052".to_vec());
}

/// A summary-information stream with the given (id, value) pairs, values
/// already laid out as typed bytes.
fn summary_of(props: &[(u32, Vec<u8>)]) -> Vec<u8> {
    let mut b = vec![0u8; 48];
    b[44] = 48;
    let nprops = props.len() as u32;
    let mut section = Vec::new();
    section.extend_from_slice(&0u32.to_le_bytes());
    section.extend_from_slice(&nprops.to_le_bytes());
    let mut off = 8 + 8 * props.len() as u32;
    let mut values = Vec::new();
    for (id, val) in props {
        section.extend_from_slice(&id.to_le_bytes());
        section.extend_from_slice(&off.to_le_bytes());
        values.extend_from_slice(val);
        off += val.len() as u32;
    }
    b.extend_from_slice(&section);
    b.extend_from_slice(&values);
    b
}

fn lpstr(s: &str) -> Vec<u8> {
    let mut v = 30u32.to_le_bytes().to_vec();
    v.extend_from_slice(&(s.len() as u32 + 1).to_le_bytes());
    v.extend_from_slice(s.as_bytes());
    v.push(0);
    v
}

fn vt_i4(n: i32) -> Vec<u8> {
    let mut v = 3u32.to_le_bytes().to_vec();
    v.extend_from_slice(&(n as u32).to_le_bytes());
    v
}

fn vt_i2(n: i16) -> Vec<u8> {
    let mut v = 2u32.to_le_bytes().to_vec();
    v.extend_from_slice(&(n as u16).to_le_bytes());
    v
}

fn vt_filetime(ft: u64) -> Vec<u8> {
    let mut v = 64u32.to_le_bytes().to_vec();
    v.extend_from_slice(&ft.to_le_bytes());
    v
}

#[test]
fn absent_word_count_reports_sentinel() {
    let b = summary_of(&[(2, lpstr("Demo"))]);
    let m = assemble_metadata(&b, false);
    assert_eq!(m.word_count, -1);
    assert_eq!(m.title, b"Demo".to_vec());
}

#[test]
fn present_word_count_is_reported() {
    let b = summary_of(&[(15, vt_i4(42))]);
    let m = assemble_metadata(&b, false);
    assert_eq!(m.word_count, 42);
}

#[test]
fn zero_word_count_differs_from_absent() {
    let b = summary_of(&[(15, vt_i4(0))]);
    assert_eq!(assemble_metadata(&b, false).word_count, 0);
}

#[test]
fn metadata_decodes_known_properties() {
    let ft = (1072915200u64 + 11644473600) * 10_000_000;
    let b = summary_of(&[
        (1, vt_i2(1252)),
        (2, lpstr("Title here")),
        (3, lpstr("Subject here")),
        (4, lpstr("An Author")),
        (6, lpstr("No comment")),
        (7, lpstr("Intel;1033,1036")),
        (9, lpstr("{01234567-89AB-cdef-0123-456789ABCDEF}")),
        (12, vt_filetime(ft)),
        (15, vt_i4(7)),
        (18, lpstr("A Tool")),
    ]);
    let m = assemble_metadata(&b, true);
    assert!(m.is_signed);
    assert_eq!(m.title, b"Title here".to_vec());
    assert_eq!(m.subject, b"Subject here".to_vec());
    assert_eq!(m.author, b"An Author".to_vec());
    assert_eq!(m.comments, b"No comment".to_vec());
    assert_eq!(m.created_with, b"A Tool".to_vec());
    assert_eq!(m.arch, b"Intel".to_vec());
    assert_eq!(m.languages, vec![b"1033".to_vec(), b"1036".to_vec()]);
    assert_eq!(m.uuid, b"01234567-89ab-cdef-0123-456789abcdef".to_vec());
    assert_eq!(m.word_count, 7);
    assert_eq!(m.codepage, "Windows-1252");
    assert_eq!(m.codepage_id, b"1252".to_vec());
    // The creation time is rendered from the filetime, not echoed.
    assert!(m.created_at.starts_with("2004-01-01"));
}

#[test]
fn malformed_uuid_renders_empty() {
    assert_eq!(format_uuid(&b"not a uuid".to_vec()), Vec::<u8>::new());
}

#[test]
fn codepage_names() {
    assert_eq!(codepage_name(65001), "UTF-8");
    assert_eq!(codepage_name(1252), "Windows-1252");
    assert_eq!(codepage_name(12345), "unknown");
}

#[test]
fn sanitize_strips_control_characters() {
    assert_eq!(sanitize_stream_name("\u{5}DigitalSignature"), "DigitalSignature");
    assert_eq!(sanitize_stream_name("plain name.txt"), "plain name.txt");
    assert_eq!(sanitize_stream_name("a\u{0}b\u{7f}c"), "abc");
}
