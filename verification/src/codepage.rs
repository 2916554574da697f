//! Codepage decoding: the byte-to-text mapping that turns pool and
//! summary strings into UTF-8, for the codepages this reader tables.
use vstd::prelude::*;

verus! {

/// The Unicode code point a Windows-1252 byte denotes: ASCII and the
/// 0xA0..=0xFF range map to themselves, the 0x80..=0x9F range through
/// the vendor table.
pub open spec fn cp1252_point(b: u8) -> u32 {
    if b < 0x80 || b >= 0xA0 {
        b as u32
    } else if b == 0x80 {
        0x20ACu32
    } else if b == 0x81 {
        0x81u32
    } else if b == 0x82 {
        0x201Au32
    } else if b == 0x83 {
        0x192u32
    } else if b == 0x84 {
        0x201Eu32
    } else if b == 0x85 {
        0x2026u32
    } else if b == 0x86 {
        0x2020u32
    } else if b == 0x87 {
        0x2021u32
    } else if b == 0x88 {
        0x2C6u32
    } else if b == 0x89 {
        0x2030u32
    } else if b == 0x8A {
        0x160u32
    } else if b == 0x8B {
        0x2039u32
    } else if b == 0x8C {
        0x152u32
    } else if b == 0x8D {
        0x8Du32
    } else if b == 0x8E {
        0x17Du32
    } else if b == 0x8F {
        0x8Fu32
    } else if b == 0x90 {
        0x90u32
    } else if b == 0x91 {
        0x2018u32
    } else if b == 0x92 {
        0x2019u32
    } else if b == 0x93 {
        0x201Cu32
    } else if b == 0x94 {
        0x201Du32
    } else if b == 0x95 {
        0x2022u32
    } else if b == 0x96 {
        0x2013u32
    } else if b == 0x97 {
        0x2014u32
    } else if b == 0x98 {
        0x2DCu32
    } else if b == 0x99 {
        0x2122u32
    } else if b == 0x9A {
        0x161u32
    } else if b == 0x9B {
        0x203Au32
    } else if b == 0x9C {
        0x153u32
    } else if b == 0x9D {
        0x9Du32
    } else if b == 0x9E {
        0x17Eu32
    } else if b == 0x9F {
        0x178u32
    } else {
        b as u32
    }
}

/// The UTF-8 encoding of a code point below 0x10000.
pub open spec fn utf8_of_point(p: u32) -> Seq<u8> {
    if p < 0x80 {
        seq![p as u8]
    } else if p < 0x800 {
        seq![(0xC0 + p / 0x40) as u8, (0x80 + p % 0x40) as u8]
    } else {
        seq![(0xE0 + p / 0x1000) as u8, (0x80 + (p / 0x40) % 0x40) as u8, (0x80 + p % 0x40) as u8]
    }
}

/// The UTF-8 text of codepage-encoded bytes: Windows-1252 for the
/// default codepage and codepage id 0, bytes unchanged for UTF-8 and for
/// every codepage this reader does not table.
pub open spec fn decoded_text(s: Seq<u8>, cp: u16) -> Seq<u8>
    decreases s.len(),
{
    if cp == 1252 || cp == 0 {
        if s.len() == 0 {
            seq![]
        } else {
            utf8_of_point(cp1252_point(s[0])) + decoded_text(s.skip(1), cp)
        }
    } else {
        s
    }
}

/// The code point of one Windows-1252 byte.
fn cp1252_point_exec(b: u8) -> (r: u32)
    ensures
        r == cp1252_point(b),
{
    if b < 0x80 || b >= 0xA0 {
        b as u32
    } else {
        let points: [u32; 32] = [
            0x20AC, 0x81, 0x201A, 0x192, 0x201E, 0x2026, 0x2020, 0x2021, 0x2C6, 0x2030, 0x160,
            0x2039, 0x152, 0x8D, 0x17D, 0x8F, 0x90, 0x2018, 0x2019, 0x201C, 0x201D, 0x2022,
            0x2013, 0x2014, 0x2DC, 0x2122, 0x161, 0x203A, 0x153, 0x9D, 0x17E, 0x178,
        ];
        points[(b - 0x80) as usize]
    }
}

/// Decodes codepage-encoded bytes to UTF-8.
pub fn decode_text(s: &Vec<u8>, cp: u16) -> (r: Vec<u8>)
    ensures
        r@ == decoded_text(s@, cp),
{
    if cp != 1252 && cp != 0 {
        let out = crate::bytes::copy_range(s, 0, s.len());
        assert(out@ =~= s@);
        return out;
    }
    let n = s.len();
    let mut out: Vec<u8> = Vec::new();
    let mut i: usize = 0;
    assert(s@.skip(0) =~= s@);
    assert(out@ + decoded_text(s@, cp) =~= decoded_text(s@, cp));
    while i < n
        invariant
            i <= n,
            n == s@.len(),
            cp == 1252 || cp == 0,
            decoded_text(s@, cp) == out@ + decoded_text(s@.skip(i as int), cp),
        decreases n - i,
    {
        let ghost pre = out@;
        assert(s@.skip(i as int)[0] == s@[i as int]);
        assert(s@.skip(i as int).skip(1) =~= s@.skip(i + 1));
        let p = cp1252_point_exec(s[i]);
        if p < 0x80 {
            out.push(p as u8);
        } else if p < 0x800 {
            out.push((0xC0 + p / 0x40) as u8);
            out.push((0x80 + p % 0x40) as u8);
        } else {
            out.push((0xE0 + p / 0x1000) as u8);
            out.push((0x80 + (p / 0x40) % 0x40) as u8);
            out.push((0x80 + p % 0x40) as u8);
        }
        assert(out@ =~= pre + utf8_of_point(cp1252_point(s@[i as int])));
        assert(pre + decoded_text(s@.skip(i as int), cp) =~= out@ + decoded_text(
            s@.skip(i + 1),
            cp,
        ));
        i += 1;
    }
    assert(s@.skip(n as int) =~= Seq::<u8>::empty());
    assert(decoded_text(s@, cp) =~= out@);
    out
}

} // verus!
