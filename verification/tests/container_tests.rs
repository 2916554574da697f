use msilens::MsiError;
use msilens::ident::encode_name;
use msilens::package::{Container, Package};

const END: u32 = 0xFFFFFFFE;
const FREE: u32 = 0xFFFFFFFF;
const NOSTREAM: u32 = 0xFFFFFFFF;

fn put16(v: &mut Vec<u8>, off: usize, x: u16) {
    v[off] = (x & 0xFF) as u8;
    v[off + 1] = (x >> 8) as u8;
}

fn put32(v: &mut Vec<u8>, off: usize, x: u32) {
    for k in 0..4 {
        v[off + k] = ((x >> (8 * k)) & 0xFF) as u8;
    }
}

fn put64(v: &mut Vec<u8>, off: usize, x: u64) {
    for k in 0..8 {
        v[off + k] = ((x >> (8 * k)) & 0xFF) as u8;
    }
}

fn units(s: &str) -> Vec<u16> {
    s.encode_utf16().collect()
}

/// Builds a minimal 512-byte-sector container holding the given streams,
/// all shorter than the mini cutoff, as children of the root.
fn build(streams: &[(Vec<u16>, Vec<u8>)]) -> Vec<u8> {
    let n = streams.len();
    let nentries = 1 + n;
    let dir_sectors = (nentries + 3) / 4;

    // Mini stream: each non-empty stream padded to 64-byte mini sectors.
    let mut mini: Vec<u8> = Vec::new();
    let mut mini_starts: Vec<Option<(u32, usize)>> = Vec::new();
    for (_, data) in streams {
        if data.is_empty() {
            mini_starts.push(None);
        } else {
            let first = (mini.len() / 64) as u32;
            let count = (data.len() + 63) / 64;
            mini.extend_from_slice(data);
            while mini.len() % 64 != 0 {
                mini.push(0);
            }
            mini_starts.push(Some((first, count)));
        }
    }
    let mini_total = mini.len();

    let minifat_sector = 1 + dir_sectors;
    let mini_start_reg = minifat_sector + 1;
    let reg_mini_count = (mini_total + 511) / 512;
    assert!(mini_start_reg + reg_mini_count <= 128);

    let mut fat = vec![FREE; 128];
    fat[0] = 0xFFFFFFFD;
    for i in 0..dir_sectors {
        fat[1 + i] = if i + 1 < dir_sectors { (2 + i) as u32 } else { END };
    }
    fat[minifat_sector] = END;
    for i in 0..reg_mini_count {
        fat[mini_start_reg + i] = if i + 1 < reg_mini_count {
            (mini_start_reg + i + 1) as u32
        } else {
            END
        };
    }

    let mut minifat = vec![FREE; 128];
    for s in &mini_starts {
        if let Some((first, count)) = s {
            for k in 0..*count {
                minifat[*first as usize + k] = if k + 1 < *count {
                    *first + k as u32 + 1
                } else {
                    END
                };
            }
        }
    }

    let mut dir = vec![0u8; dir_sectors * 512];
    // Root entry.
    {
        let name = units("Root Entry");
        for (k, u) in name.iter().enumerate() {
            put16(&mut dir, 2 * k, *u);
        }
        put16(&mut dir, 64, (name.len() as u16 + 1) * 2);
        dir[66] = 5;
        dir[67] = 1;
        put32(&mut dir, 68, NOSTREAM);
        put32(&mut dir, 72, NOSTREAM);
        put32(&mut dir, 76, if n > 0 { 1 } else { NOSTREAM });
        put32(
            &mut dir,
            116,
            if mini_total > 0 { mini_start_reg as u32 } else { END },
        );
        put64(&mut dir, 120, mini_total as u64);
    }
    for (i, (name, data)) in streams.iter().enumerate() {
        let off = 128 * (i + 1);
        for (k, u) in name.iter().enumerate() {
            put16(&mut dir, off + 2 * k, *u);
        }
        put16(&mut dir, off + 64, (name.len() as u16 + 1) * 2);
        dir[off + 66] = 2;
        dir[off + 67] = 1;
        put32(&mut dir, off + 68, NOSTREAM);
        put32(
            &mut dir,
            off + 72,
            if i + 1 < n { (i + 2) as u32 } else { NOSTREAM },
        );
        put32(&mut dir, off + 76, NOSTREAM);
        match mini_starts[i] {
            Some((first, _)) => put32(&mut dir, off + 116, first),
            None => put32(&mut dir, off + 116, END),
        }
        put64(&mut dir, off + 120, data.len() as u64);
    }

    let mut file = vec![0u8; 512];
    file[0..8].copy_from_slice(&[0xD0, 0xCF, 0x11, 0xE0, 0xA1, 0xB1, 0x1A, 0xE1]);
    put16(&mut file, 24, 0x003E);
    put16(&mut file, 26, 0x0003);
    put16(&mut file, 28, 0xFFFE);
    put16(&mut file, 30, 9);
    put16(&mut file, 32, 6);
    put32(&mut file, 44, 1);
    put32(&mut file, 48, 1);
    put32(&mut file, 56, 4096);
    put32(&mut file, 60, minifat_sector as u32);
    put32(&mut file, 64, 1);
    put32(&mut file, 68, END);
    put32(&mut file, 72, 0);
    put32(&mut file, 76, 0);
    for k in 1..109 {
        put32(&mut file, 76 + 4 * k, FREE);
    }

    for e in &fat {
        file.extend_from_slice(&e.to_le_bytes());
    }
    file.extend_from_slice(&dir);
    for e in &minifat {
        file.extend_from_slice(&e.to_le_bytes());
    }
    file.extend_from_slice(&mini);
    while (file.len() - 512) % 512 != 0 {
        file.push(0);
    }
    file
}

#[test]
fn rejects_bad_signature() {
    let mut data = build(&[]);
    data[0] = 0x00;
    assert!(matches!(Container::open(data), Err(MsiError::InvalidContainer)));
}

#[test]
fn rejects_bad_sector_shift() {
    let mut data = build(&[]);
    put16(&mut data, 30, 10);
    assert!(matches!(Container::open(data), Err(MsiError::InvalidContainer)));
}

#[test]
fn rejects_short_file() {
    assert!(matches!(
        Container::open(vec![0xD0, 0xCF, 0x11, 0xE0]),
        Err(MsiError::InvalidContainer)
    ));
}

#[test]
fn lists_streams_in_order() {
    let data = build(&[
        (units("alpha"), b"one".to_vec()),
        (units("beta"), b"two".to_vec()),
    ]);
    let p = Package::open(data).unwrap();
    let names = p.streams();
    assert_eq!(names.len(), 2);
    assert_eq!(names[0], units("alpha"));
    assert_eq!(names[1], units("beta"));
}

#[test]
fn stream_length_matches_declared() {
    let payload: Vec<u8> = (0..130u16).map(|x| (x % 251) as u8).collect();
    let data = build(&[(units("blob"), payload.clone())]);
    let p = Package::open(data).unwrap();
    let got = p.read_stream("blob").unwrap();
    assert_eq!(got.len(), payload.len());
    assert_eq!(got, payload);
}

#[test]
fn empty_stream_reads_empty() {
    let data = build(&[(units("nil"), Vec::new())]);
    let p = Package::open(data).unwrap();
    assert_eq!(p.read_stream("nil").unwrap(), Vec::<u8>::new());
}

#[test]
fn missing_stream_reads_none() {
    let data = build(&[(units("alpha"), b"one".to_vec())]);
    let p = Package::open(data).unwrap();
    assert!(p.read_stream("beta").is_none());
}

#[test]
fn chain_cycle_is_reported_not_looped() {
    // A stream of three mini sectors whose chain loops back on itself.
    let payload = vec![7u8; 130];
    let mut data = build(&[(units("loop"), payload)]);
    // The mini allocation table lives in one 512-byte sector right after
    // the directory; entry 0 is the stream's first mini sector. Point the
    // second mini sector back at the first.
    let dir_sectors = 1;
    let minifat_off = 512 + 512 + dir_sectors * 512;
    put32(&mut data, minifat_off + 4, 0);
    let p = Package::open(data).unwrap();
    let idx = p.find_stream_units(&units("loop")).unwrap();
    let entry = p.listing[idx].entry as usize;
    assert!(matches!(
        p.container.read_stream_entry(entry),
        Err(MsiError::ChainCycle)
    ));
}

#[test]
fn truncated_chain_is_reported() {
    // Declared length asks for three mini sectors but the chain ends
    // after the first.
    let payload = vec![9u8; 130];
    let mut data = build(&[(units("short"), payload)]);
    let dir_sectors = 1;
    let minifat_off = 512 + 512 + dir_sectors * 512;
    put32(&mut data, minifat_off, END);
    let p = Package::open(data).unwrap();
    let idx = p.find_stream_units(&units("short")).unwrap();
    let entry = p.listing[idx].entry as usize;
    assert!(matches!(
        p.container.read_stream_entry(entry),
        Err(MsiError::StreamTruncated)
    ));
}

#[test]
fn unsigned_package_has_no_signature() {
    let data = build(&[(units("alpha"), b"one".to_vec())]);
    let p = Package::open(data).unwrap();
    assert!(!p.is_signed());
    assert_eq!(p.signatures().len(), 0);
    assert!(!p.metadata().is_signed);
}

#[test]
fn digital_signature_stream_is_found_and_stripped() {
    let payload = b"not a real pkcs7 payload".to_vec();
    let data = build(&[
        (units("\u{5}DigitalSignature"), payload.clone()),
        (units("other"), b"x".to_vec()),
    ]);
    let p = Package::open(data).unwrap();
    assert!(p.is_signed());
    let sigs = p.signatures();
    assert_eq!(sigs.len(), 1);
    assert_eq!(sigs[0].name, "DigitalSignature");
    assert_eq!(sigs[0].data, payload);
    assert!(p.metadata().is_signed);
}

#[test]
fn extended_signature_stream_counts_too() {
    let data = build(&[(units("\u{5}MsiDigitalSignatureEx"), b"ex".to_vec())]);
    let p = Package::open(data).unwrap();
    assert!(p.is_signed());
    let sigs = p.signatures();
    assert_eq!(sigs.len(), 1);
    assert_eq!(sigs[0].name, "MsiDigitalSignatureEx");
}

fn pool_streams(entries: &[&str]) -> (Vec<u8>, Vec<u8>) {
    let mut pool = Vec::new();
    let mut data = Vec::new();
    pool.extend_from_slice(&1252u16.to_le_bytes());
    pool.extend_from_slice(&0u16.to_le_bytes());
    for e in entries {
        pool.extend_from_slice(&(e.len() as u16).to_le_bytes());
        pool.extend_from_slice(&1u16.to_le_bytes());
        data.extend_from_slice(e.as_bytes());
    }
    (pool, data)
}

#[test]
fn feature_table_lists_columns_and_rows_in_order() {
    // Pool ids: 1 Feature, 2 Title, 3 Alpha, 4 Beta, 5 Gamma, 6 Delta.
    let (pool, sdata) = pool_streams(&["Feature", "Title", "Alpha", "Beta", "Gamma", "Delta"]);
    let tables: Vec<u8> = 1u16.to_le_bytes().to_vec();
    let mut columns = Vec::new();
    // (table ref, column name ref, number, type word), two bytes each.
    for rec in [(1u16, 1u16, 1u16, 0x2840u16), (1, 2, 2, 0x0840)] {
        columns.extend_from_slice(&rec.0.to_le_bytes());
        columns.extend_from_slice(&rec.1.to_le_bytes());
        columns.extend_from_slice(&rec.2.to_le_bytes());
        columns.extend_from_slice(&rec.3.to_le_bytes());
    }
    let mut rows = Vec::new();
    for cell in [3u16, 4, 5, 6] {
        rows.extend_from_slice(&cell.to_le_bytes());
    }
    let mut feature_name = vec![0x4840u16];
    feature_name.extend(encode_name(&units("Feature")));
    let data = build(&[
        (units("_StringPool"), pool),
        (units("_StringData"), sdata),
        (units("_Tables"), tables),
        (units("_Columns"), columns),
        (feature_name, rows),
    ]);
    let p = Package::open(data).unwrap();
    let ts = p.tables().unwrap();
    assert_eq!(ts.len(), 1);
    assert_eq!(ts[0].name, b"Feature".to_vec());
    assert_eq!(ts[0].columns, vec![b"Feature".to_vec(), b"Title".to_vec()]);
    assert_eq!(
        ts[0].rows,
        vec![
            vec![b"Alpha".to_vec(), b"Beta".to_vec()],
            vec![b"Gamma".to_vec(), b"Delta".to_vec()],
        ]
    );
    // The encoded table stream is listed under its decoded name.
    assert!(p.find_stream_units(&units("Feature")).is_some());
}

#[test]
fn table_text_is_decoded_by_codepage() {
    // Pool ids: 1 "Tbl", 2 "Name", 3 a cell whose 0x99 byte is the
    // Windows-1252 trademark sign.
    let (mut pool, mut sdata) = pool_streams(&["Tbl", "Name"]);
    pool.extend_from_slice(&3u16.to_le_bytes());
    pool.extend_from_slice(&1u16.to_le_bytes());
    sdata.extend_from_slice(&[b'x', 0x99, b'y']);
    let tables: Vec<u8> = 1u16.to_le_bytes().to_vec();
    let mut columns = Vec::new();
    for rec in [(1u16, 2u16, 1u16, 0x2840u16)] {
        columns.extend_from_slice(&rec.0.to_le_bytes());
        columns.extend_from_slice(&rec.1.to_le_bytes());
        columns.extend_from_slice(&rec.2.to_le_bytes());
        columns.extend_from_slice(&rec.3.to_le_bytes());
    }
    let rows: Vec<u8> = 3u16.to_le_bytes().to_vec();
    let mut tbl_name = vec![0x4840u16];
    tbl_name.extend(encode_name(&units("Tbl")));
    let data = build(&[
        (units("_StringPool"), pool),
        (units("_StringData"), sdata),
        (units("_Tables"), tables),
        (units("_Columns"), columns),
        (tbl_name, rows),
    ]);
    let p = Package::open(data).unwrap();
    let ts = p.tables().unwrap();
    assert_eq!(ts.len(), 1);
    // 0x99 in Windows-1252 is U+2122, three bytes in UTF-8.
    assert_eq!(ts[0].rows[0][0], b"x\xe2\x84\xa2y".to_vec());
    assert_eq!(String::from_utf8(ts[0].rows[0][0].clone()).unwrap(), "x\u{2122}y");
}

#[test]
fn non_ascii_stream_name_is_listed_and_extractable() {
    let data = build(&[(units("na\u{ef}ve"), b"payload".to_vec())]);
    let p = Package::open(data).unwrap();
    assert_eq!(p.streams()[0], units("na\u{ef}ve"));
    let got = p.read_stream_units(&units("na\u{ef}ve")).unwrap();
    assert_eq!(got, b"payload".to_vec());
}

#[test]
fn package_without_database_has_no_tables() {
    let data = build(&[(units("alpha"), b"one".to_vec())]);
    let p = Package::open(data).unwrap();
    assert_eq!(p.tables().unwrap().len(), 0);
}
