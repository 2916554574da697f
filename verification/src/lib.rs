//! Reader for MSI installer packages stored in compound file binary (CFB)
//! containers: sector-chain traversal, directory tree decoding, stream
//! extraction, the compressed identifier codec, the relational table
//! decoder, the summary property set, and digital-signature location.
use vstd::prelude::*;

pub mod bytes;
pub mod codepage;
pub mod container;
pub mod database;
pub mod directory;
pub mod ident;
pub mod meta;
pub mod package;
pub mod propset;
pub mod strpool;

verus! {

/// Why a container, a stream or a table could not be decoded.
#[derive(Clone, Copy, Debug, PartialEq, Eq, Structural)]
pub enum MsiError {
    /// The header signature, sector size or a sector reference is invalid.
    InvalidContainer,
    /// A sector chain revisits a sector it has already visited.
    ChainCycle,
    /// A chain ends before a stream's declared length is reached.
    StreamTruncated,
    /// A directory entry has an invalid type tag or an oversized name.
    MalformedDirectory,
    /// No root entry exists in the directory.
    MissingRoot,
    /// A column's type word selects no known type tag.
    UnknownColumnType,
    /// A table's data stream is truncated mid-record or holds a bad reference.
    RowDecodeError,
    /// The string pool's lengths overrun the string data stream.
    StringPoolMismatch,
}

/// Whether a byte stays in a sanitized stream name: ASCII graphic, or
/// ASCII whitespace.
pub open spec fn keep_byte(b: u8) -> bool {
    (0x21 <= b <= 0x7E) || b == 0x20 || b == 0x09 || b == 0x0A || b == 0x0C || b == 0x0D
}

/// The bytes of a name that survive sanitizing, in order.
pub open spec fn sanitize_bytes(s: Seq<u8>) -> Seq<u8>
    decreases s.len(),
{
    if s.len() == 0 {
        seq![]
    } else {
        let rest = sanitize_bytes(s.skip(1));
        if keep_byte(s[0]) {
            seq![s[0]] + rest
        } else {
            rest
        }
    }
}

/// Relies on String::from_utf8: bytes below 0x80 decode to one char
/// each, with the same scalar values, so the result is ASCII throughout.
#[verifier::external_body]
fn string_from_ascii(v: Vec<u8>) -> (r: String)
    requires
        forall|i: int| 0 <= i < v@.len() ==> v@[i] < 0x80,
    ensures
        r@.len() == v@.len(),
        forall|i: int| 0 <= i < v@.len() ==> r@[i] as u32 == v@[i] as u32,
        vstd::utf8::is_ascii_chars(r@),
{
    String::from_utf8(v).unwrap_or_default()
}

/// Keeps only the ASCII graphic and whitespace characters of a stream
/// name, so it can serve as a file name; control characters, such as the
/// reserved-name prefix, are dropped.
pub fn sanitize_stream_name(name: &str) -> (r: String)
    ensures
        r@.len() == sanitize_bytes(vstd::string::StringSliceAdditionalSpecFns::spec_bytes(
            name,
        )).len(),
        forall|i: int|
            0 <= i < r@.len() ==> #[trigger] r@[i] as u32 == sanitize_bytes(
                vstd::string::StringSliceAdditionalSpecFns::spec_bytes(name),
            )[i] as u32,
{
    let bytes = name.as_bytes();
    let n = bytes.len();
    let mut kept: Vec<u8> = Vec::new();
    let mut i: usize = 0;
    assert(bytes@.skip(0) =~= bytes@);
    assert(kept@ + sanitize_bytes(bytes@) =~= sanitize_bytes(bytes@));
    while i < n
        invariant
            i <= n,
            n == bytes@.len(),
            forall|j: int| 0 <= j < kept@.len() ==> kept@[j] < 0x80,
            sanitize_bytes(bytes@) == kept@ + sanitize_bytes(bytes@.skip(i as int)),
        decreases n - i,
    {
        let b = bytes[i];
        let ghost pre = kept@;
        assert(bytes@.skip(i as int)[0] == bytes@[i as int]);
        assert(bytes@.skip(i as int).skip(1) =~= bytes@.skip(i + 1));
        if (0x21 <= b && b <= 0x7E) || b == 0x20 || b == 0x09 || b == 0x0A || b == 0x0C || b
            == 0x0D {
            kept.push(b);
            assert(pre + sanitize_bytes(bytes@.skip(i as int)) =~= kept@ + sanitize_bytes(
                bytes@.skip(i + 1),
            ));
        } else {
            assert(pre + sanitize_bytes(bytes@.skip(i as int)) =~= kept@ + sanitize_bytes(
                bytes@.skip(i + 1),
            ));
        }
        i += 1;
    }
    assert(bytes@.skip(n as int) =~= Seq::<u8>::empty());
    assert(sanitize_bytes(bytes@) =~= kept@);
    string_from_ascii(kept)
}

} // verus!
