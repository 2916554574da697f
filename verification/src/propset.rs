//! Property set parser: the self-describing key/value layout of the
//! summary-information stream, and the flat metadata record assembled
//! from its well-known property ids.
use vstd::prelude::*;
use crate::MsiError;
use crate::bytes::{le16, le32, le64, read_le16, read_le32, read_le64, copy_range};

verus! {

/// A decoded property value.
pub enum PropValue {
    /// A 16- or 32-bit signed integer.
    Int(i32),
    /// Codepage-encoded string bytes, trailing terminator stripped.
    Str(Vec<u8>),
    /// A filetime: 100-nanosecond ticks since 1601-01-01 UTC.
    Time(u64),
    /// A boolean.
    Bool(bool),
}

/// The mathematical image of a property value.
pub ghost enum GPropValue {
    Int(i32),
    Str(Seq<u8>),
    Time(u64),
    Bool(bool),
}

impl View for PropValue {
    type V = GPropValue;

    open spec fn view(&self) -> GPropValue {
        match self {
            PropValue::Int(n) => GPropValue::Int(*n),
            PropValue::Str(s) => GPropValue::Str(s@),
            PropValue::Time(t) => GPropValue::Time(*t),
            PropValue::Bool(b) => GPropValue::Bool(*b),
        }
    }
}

/// The first position at or after `i` holding byte `c`, or the length.
pub open spec fn find_byte(s: Seq<u8>, c: u8, i: int) -> int
    decreases s.len() - i,
{
    if i < 0 || i >= s.len() {
        s.len() as int
    } else if s[i] == c {
        i
    } else {
        find_byte(s, c, i + 1)
    }
}

/// The offset of property `id` in the section's offset table, scanning
/// from slot `k`.
pub open spec fn prop_lookup(b: Seq<u8>, so: int, nprops: int, k: int, id: u32) -> Option<int>
    decreases nprops - k,
{
    if k < 0 || k >= nprops {
        None
    } else if le32(b, so + 8 + 8 * k) == id {
        Some(le32(b, so + 8 + 8 * k + 4) as int)
    } else {
        prop_lookup(b, so, nprops, k + 1, id)
    }
}

/// The typed value stored at `vo`: a type tag selects a 16- or 32-bit
/// integer, a length-prefixed string (terminator stripped), a filetime or
/// a boolean; anything else, or a value past the stream's end, is absent.
pub open spec fn prop_value_spec(b: Seq<u8>, vo: int) -> Option<GPropValue> {
    if vo < 0 || vo + 4 > b.len() {
        None
    } else {
        let t = le32(b, vo);
        if t == 2 {
            if vo + 6 <= b.len() {
                let v = le16(b, vo + 4) as int;
                Some(
                    GPropValue::Int(
                        (if v >= 0x8000 {
                            v - 0x10000
                        } else {
                            v
                        }) as i32,
                    ),
                )
            } else {
                None
            }
        } else if t == 3 {
            if vo + 8 <= b.len() {
                let v = le32(b, vo + 4) as int;
                Some(
                    GPropValue::Int(
                        (if v >= 0x80000000 {
                            v - 0x100000000
                        } else {
                            v
                        }) as i32,
                    ),
                )
            } else {
                None
            }
        } else if t == 11 {
            if vo + 6 <= b.len() {
                Some(GPropValue::Bool(le16(b, vo + 4) != 0))
            } else {
                None
            }
        } else if t == 30 {
            if vo + 8 <= b.len() {
                let sl = le32(b, vo + 4) as int;
                if vo + 8 + sl <= b.len() {
                    let raw = b.subrange(vo + 8, vo + 8 + sl);
                    if raw.len() > 0 && raw[raw.len() - 1] == 0 {
                        Some(GPropValue::Str(raw.take(raw.len() - 1)))
                    } else {
                        Some(GPropValue::Str(raw))
                    }
                } else {
                    None
                }
            } else {
                None
            }
        } else if t == 64 {
            if vo + 12 <= b.len() {
                Some(GPropValue::Time(le64(b, vo + 4)))
            } else {
                None
            }
        } else {
            None
        }
    }
}

/// The value of property `id` in the stream's first section, absent when
/// the stream is too short, the id is not listed, or its value cannot be
/// decoded.
pub open spec fn prop_spec(b: Seq<u8>, id: u32) -> Option<GPropValue> {
    if b.len() < 48 {
        None
    } else {
        let so = le32(b, 44) as int;
        if so + 8 > b.len() {
            None
        } else {
            let nprops = le32(b, so + 4) as int;
            if so + 8 + 8 * nprops > b.len() {
                None
            } else {
                match prop_lookup(b, so, nprops, 0, id) {
                    None => None,
                    Some(off) => prop_value_spec(b, so + off),
                }
            }
        }
    }
}

/// Looks property `id` up in the summary stream.
pub fn get_property(b: &Vec<u8>, id: u32) -> (r: Option<PropValue>)
    ensures
        match r {
            Some(v) => prop_spec(b@, id) == Some(v@),
            None => prop_spec(b@, id) is None,
        },
{
    let n = b.len();
    if n < 48 {
        return None;
    }
    let so32 = read_le32(b, 44);
    if so32 as u128 + 8 > n as u128 {
        return None;
    }
    let so = so32 as usize;
    let nprops32 = read_le32(b, so + 4);
    if so as u128 + 8 + 8 * nprops32 as u128 > n as u128 {
        return None;
    }
    let nprops = nprops32 as usize;
    let mut k: usize = 0;
    while k < nprops
        invariant
            n == b@.len(),
            n <= usize::MAX,
            n >= 48,
            so == le32(b@, 44),
            nprops == le32(b@, so as int + 4),
            so + 8 + 8 * nprops <= n,
            nprops <= n,
            k <= nprops,
            prop_lookup(b@, so as int, nprops as int, 0, id) == prop_lookup(
                b@,
                so as int,
                nprops as int,
                k as int,
                id,
            ),
        decreases nprops - k,
    {
        let slot = so + 8 + 8 * k;
        let pid = read_le32(b, slot);
        if pid == id {
            let po = read_le32(b, slot + 4);
            assert(prop_lookup(b@, so as int, nprops as int, k as int, id) == Some(po as int));
            assert(prop_spec(b@, id) == prop_value_spec(b@, so as int + po as int));
            return decode_value(b, so, po);
        }
        k += 1;
    }
    assert(prop_lookup(b@, so as int, nprops as int, k as int, id) is None);
    None
}

/// Decodes the typed value at section offset `po`.
fn decode_value(b: &Vec<u8>, so: usize, po: u32) -> (r: Option<PropValue>)
    requires
        so + 8 <= b@.len(),
    ensures
        match r {
            Some(v) => prop_value_spec(b@, so as int + po as int) == Some(v@),
            None => prop_value_spec(b@, so as int + po as int) is None,
        },
{
    let n = b.len();
    if so as u128 + po as u128 + 4 > n as u128 {
        return None;
    }
    let vo = so + po as usize;
    let t = read_le32(b, vo);
    if t == 2 {
        if vo as u128 + 6 <= n as u128 {
            let v = read_le16(b, vo + 4);
            let sv: i32 = if v >= 0x8000 {
                v as i32 - 0x10000
            } else {
                v as i32
            };
            Some(PropValue::Int(sv))
        } else {
            None
        }
    } else if t == 3 {
        if vo as u128 + 8 <= n as u128 {
            let v = read_le32(b, vo + 4);
            let sv: i32 = if v >= 0x80000000 {
                (v as i64 - 0x100000000i64) as i32
            } else {
                v as i32
            };
            Some(PropValue::Int(sv))
        } else {
            None
        }
    } else if t == 11 {
        if vo as u128 + 6 <= n as u128 {
            Some(PropValue::Bool(read_le16(b, vo + 4) != 0))
        } else {
            None
        }
    } else if t == 30 {
        if vo as u128 + 8 <= n as u128 {
            let sl32 = read_le32(b, vo + 4);
            if vo as u128 + 8 + sl32 as u128 <= n as u128 {
                let sl = sl32 as usize;
                let raw = copy_range(b, vo + 8, vo + 8 + sl);
                if raw.len() > 0 && raw[raw.len() - 1] == 0 {
                    let t = copy_range(&raw, 0, raw.len() - 1);
                    assert(raw@.subrange(0, raw@.len() - 1) =~= raw@.take(raw@.len() - 1));
                    Some(PropValue::Str(t))
                } else {
                    Some(PropValue::Str(raw))
                }
            } else {
                None
            }
        } else {
            None
        }
    } else if t == 64 {
        if vo as u128 + 12 <= n as u128 {
            Some(PropValue::Time(read_le64(b, vo + 4)))
        } else {
            None
        }
    } else {
        None
    }
}

} // verus!
