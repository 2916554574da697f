//! Codec for the compressed identifier representation used in table and
//! column stream names.
//!
//! Names over the 64-symbol alphabet `A-Z a-z 0-9 . _` are packed into
//! UTF-16 units: one unit in `0x3800..0x4800` carries a pair of symbols,
//! one unit in `0x4800..0x4840` carries a single symbol, and the marker
//! unit `0x4840` flags a name as compressed. Units outside these ranges
//! pass through unchanged in both directions.
use vstd::prelude::*;

verus! {

/// The marker unit that flags a stream name as a compressed identifier.
pub const IDENT_MARKER: u16 = 0x4840;

/// Whether `c` is a UTF-16 unit of the supported identifier alphabet.
pub open spec fn is_ident_char(c: u16) -> bool {
    (0x30 <= c <= 0x39)  // '0'..'9'
     || (0x41 <= c <= 0x5A)  // 'A'..'Z'
     || (0x61 <= c <= 0x7A)  // 'a'..'z'
     || c == 0x2E  // '.'
     || c == 0x5F  // '_'

}

/// The 6-bit value of an alphabet unit.
pub open spec fn char_to_b64(c: u16) -> u16 {
    if 0x30 <= c <= 0x39 {
        (c - 0x30) as u16
    } else if 0x41 <= c <= 0x5A {
        (c - 0x41 + 10) as u16
    } else if 0x61 <= c <= 0x7A {
        (c - 0x61 + 36) as u16
    } else if c == 0x2E {
        62
    } else {
        63
    }
}

/// The alphabet unit of a 6-bit value.
pub open spec fn b64_to_char(v: u16) -> u16 {
    if v < 10 {
        (0x30 + v) as u16
    } else if v < 36 {
        (0x41 + v - 10) as u16
    } else if v < 62 {
        (0x61 + v - 36) as u16
    } else if v == 62 {
        0x2E
    } else {
        0x5F
    }
}

/// The compressed form of a name, marker not included.
pub open spec fn encode_units(s: Seq<u16>) -> Seq<u16>
    decreases s.len(),
{
    if s.len() == 0 {
        seq![]
    } else if is_ident_char(s[0]) {
        if s.len() >= 2 && is_ident_char(s[1]) {
            seq![(0x3800 + char_to_b64(s[0]) + 0x40 * char_to_b64(s[1])) as u16] + encode_units(
                s.skip(2),
            )
        } else {
            seq![(0x4800 + char_to_b64(s[0])) as u16] + encode_units(s.skip(1))
        }
    } else {
        seq![s[0]] + encode_units(s.skip(1))
    }
}

/// The decompressed form of a stream name, marker not included.
pub open spec fn decode_units(s: Seq<u16>) -> Seq<u16>
    decreases s.len(),
{
    if s.len() == 0 {
        seq![]
    } else if 0x3800 <= s[0] < 0x4800 {
        seq![
            b64_to_char(((s[0] - 0x3800) as u16 % 0x40) as u16),
            b64_to_char(((s[0] - 0x3800) as u16 / 0x40) as u16),
        ] + decode_units(s.skip(1))
    } else if 0x4800 <= s[0] < 0x4840 {
        seq![b64_to_char((s[0] - 0x4800) as u16)] + decode_units(s.skip(1))
    } else {
        seq![s[0]] + decode_units(s.skip(1))
    }
}

/// The decoded form of a stored stream name: the marker, when present,
/// is stripped and the rest is decompressed.
pub open spec fn decode_name_spec(s: Seq<u16>) -> Seq<u16> {
    if s.len() > 0 && s[0] == IDENT_MARKER {
        decode_units(s.skip(1))
    } else {
        decode_units(s)
    }
}

/// Decoding is the exact inverse of encoding for every name drawn from
/// the supported alphabet.
pub proof fn lemma_codec_round_trip(s: Seq<u16>)
    requires
        forall|i: int| 0 <= i < s.len() ==> is_ident_char(s[i]),
    ensures
        decode_units(encode_units(s)) == s,
    decreases s.len(),
{
    if s.len() == 0 {
        assert(decode_units(encode_units(s)) =~= s);
    } else if s.len() >= 2 {
        let a = char_to_b64(s[0]);
        let b = char_to_b64(s[1]);
        let packed = (0x3800 + a + 0x40 * b) as u16;
        assert(a < 64 && b < 64);
        assert(0x3800 <= packed < 0x4800);
        assert((packed - 0x3800) as u16 % 0x40 == a);
        assert((packed - 0x3800) as u16 / 0x40 == b);
        assert(b64_to_char(a) == s[0]);
        assert(b64_to_char(b) == s[1]);
        let rest = s.skip(2);
        assert(encode_units(s) == seq![packed] + encode_units(rest));
        assert((seq![packed] + encode_units(rest)).skip(1) =~= encode_units(rest));
        lemma_codec_round_trip(rest);
        assert(decode_units(encode_units(s)) =~= s);
    } else {
        let a = char_to_b64(s[0]);
        let single = (0x4800 + a) as u16;
        assert(a < 64);
        assert(b64_to_char(a) == s[0]);
        let rest = s.skip(1);
        assert(encode_units(s) == seq![single] + encode_units(rest));
        assert((seq![single] + encode_units(rest)).skip(1) =~= encode_units(rest));
        lemma_codec_round_trip(rest);
        assert(decode_units(encode_units(s)) =~= s);
    }
}

/// Compresses a name's UTF-16 units, without the marker.
pub fn encode_name(s: &Vec<u16>) -> (r: Vec<u16>)
    ensures
        r@ == encode_units(s@),
{
    let n = s.len();
    let mut r: Vec<u16> = Vec::new();
    let mut i: usize = 0;
    assert(s@.skip(0) =~= s@);
    assert(r@ + encode_units(s@) =~= encode_units(s@));
    while i < n
        invariant
            n == s@.len(),
            i <= n,
            encode_units(s@) == r@ + encode_units(s@.skip(i as int)),
        decreases n - i,
    {
        let c = s[i];
        let ghost pre = r@;
        assert(s@.skip(i as int)[0] == s@[i as int]);
        if is_ident_char_exec(c) {
            if i + 1 < n && is_ident_char_exec(s[i + 1]) {
                assert(s@.skip(i as int)[1] == s@[i + 1]);
                r.push(0x3800 + char_to_b64_exec(c) + 0x40 * char_to_b64_exec(s[i + 1]));
                assert(s@.skip(i as int).skip(2) =~= s@.skip(i + 2));
                assert(pre + encode_units(s@.skip(i as int)) =~= r@ + encode_units(
                    s@.skip(i + 2),
                ));
                i += 2;
            } else {
                assert(s@.skip(i as int).len() >= 2 ==> !is_ident_char(s@.skip(i as int)[1]));
                r.push(0x4800 + char_to_b64_exec(c));
                assert(s@.skip(i as int).skip(1) =~= s@.skip(i + 1));
                assert(pre + encode_units(s@.skip(i as int)) =~= r@ + encode_units(
                    s@.skip(i + 1),
                ));
                i += 1;
            }
        } else {
            r.push(c);
            assert(s@.skip(i as int).skip(1) =~= s@.skip(i + 1));
            assert(pre + encode_units(s@.skip(i as int)) =~= r@ + encode_units(s@.skip(i + 1)));
            i += 1;
        }
    }
    assert(s@.skip(n as int) =~= Seq::<u16>::empty());
    assert(encode_units(s@) =~= r@);
    r
}

/// Decompresses a stored name's UTF-16 units, marker already stripped.
pub fn decode_name_units(s: &Vec<u16>) -> (r: Vec<u16>)
    ensures
        r@ == decode_units(s@),
{
    let n = s.len();
    let mut r: Vec<u16> = Vec::new();
    let mut i: usize = 0;
    assert(s@.skip(0) =~= s@);
    assert(r@ + decode_units(s@) =~= decode_units(s@));
    while i < n
        invariant
            n == s@.len(),
            i <= n,
            decode_units(s@) == r@ + decode_units(s@.skip(i as int)),
        decreases n - i,
    {
        let c = s[i];
        let ghost pre = r@;
        assert(s@.skip(i as int)[0] == s@[i as int]);
        if 0x3800 <= c && c < 0x4800 {
            r.push(b64_to_char_exec((c - 0x3800) % 0x40));
            r.push(b64_to_char_exec((c - 0x3800) / 0x40));
        } else if 0x4800 <= c && c < 0x4840 {
            r.push(b64_to_char_exec(c - 0x4800));
        } else {
            r.push(c);
        }
        assert(s@.skip(i as int).skip(1) =~= s@.skip(i + 1));
        assert(pre + decode_units(s@.skip(i as int)) =~= r@ + decode_units(s@.skip(i + 1)));
        i += 1;
    }
    assert(s@.skip(n as int) =~= Seq::<u16>::empty());
    assert(decode_units(s@) =~= r@);
    r
}

/// Decodes a stored stream name: strips the marker when present and
/// decompresses the rest.
pub fn decode_name(s: &Vec<u16>) -> (r: Vec<u16>)
    ensures
        r@ == decode_name_spec(s@),
{
    if s.len() > 0 && s[0] == IDENT_MARKER {
        let mut tail: Vec<u16> = Vec::new();
        let mut i: usize = 1;
        let n = s.len();
        while i < n
            invariant
                1 <= i <= n,
                n == s@.len(),
                tail@ == s@.subrange(1, i as int),
            decreases n - i,
        {
            tail.push(s[i]);
            i += 1;
            assert(s@.subrange(1, i as int) =~= s@.subrange(1, i - 1).push(s@[i - 1]));
        }
        assert(tail@ =~= s@.skip(1));
        decode_name_units(&tail)
    } else {
        decode_name_units(s)
    }
}

/// Whether `c` is a unit of the supported identifier alphabet.
pub fn is_ident_char_exec(c: u16) -> (r: bool)
    ensures
        r == is_ident_char(c),
{
    (0x30 <= c && c <= 0x39) || (0x41 <= c && c <= 0x5A) || (0x61 <= c && c <= 0x7A) || c == 0x2E
        || c == 0x5F
}

fn char_to_b64_exec(c: u16) -> (r: u16)
    requires
        is_ident_char(c),
    ensures
        r == char_to_b64(c),
        r < 64,
{
    if 0x30 <= c && c <= 0x39 {
        c - 0x30
    } else if 0x41 <= c && c <= 0x5A {
        c - 0x41 + 10
    } else if 0x61 <= c && c <= 0x7A {
        c - 0x61 + 36
    } else if c == 0x2E {
        62
    } else {
        63
    }
}

fn b64_to_char_exec(v: u16) -> (r: u16)
    requires
        v < 64,
    ensures
        r == b64_to_char(v),
{
    if v < 10 {
        0x30 + v
    } else if v < 36 {
        0x41 + v - 10
    } else if v < 62 {
        0x61 + v - 36
    } else if v == 62 {
        0x2E
    } else {
        0x5F
    }
}


/// A name over the supported alphabet, stored compressed behind the
/// marker, decodes back to itself.
pub proof fn lemma_marked_round_trip(s: Seq<u16>)
    requires
        forall|i: int| 0 <= i < s.len() ==> is_ident_char(s[i]),
    ensures
        decode_name_spec(seq![IDENT_MARKER] + encode_units(s)) == s,
{
    let stored = seq![IDENT_MARKER] + encode_units(s);
    assert(stored[0] == IDENT_MARKER);
    assert(stored.skip(1) =~= encode_units(s));
    lemma_codec_round_trip(s);
}

} // verus!
