//! The binary container of a compiled module and the debug records in it.
//!
//! A module starts with the magic bytes `\0asm` and the version `1`, followed
//! by sections: one id byte, the size of the content as an unsigned LEB128
//! number of 32 bits, and the content. A custom section has id `0`; its
//! content starts with its name, given as a length (LEB128, 32 bits) and that
//! many bytes.
//!
//! Debug records live in the custom section named `debug_symbols`, one after
//! the other until the section ends:
//!
//! ```text
//! flags    1 byte    bit 0: an end offset follows; bit 1: a column follows
//! start    LEB128    64 bits
//! end      LEB128    64 bits, only with bit 0
//! line     LEB128    32 bits
//! column   LEB128    32 bits, only with bit 1
//! length   LEB128    32 bits
//! file     `length` bytes of UTF-8
//! ```
//!
//! A section that does not follow this layout to its last byte yields no
//! record at all: nothing is guessed from a damaged section.

use crate::symbols::{range_views, RangeView, SymbolRange};
use vstd::prelude::*;
use vstd::slice::slice_subrange;
use vstd::utf8::{decode_utf8, valid_utf8};

verus! {

// ---------------------------------------------------------------------------
// LEB128
// ---------------------------------------------------------------------------

/// 128 to the power `n`.
pub open spec fn pow128(n: nat) -> nat
    decreases n,
{
    if n == 0 {
        1
    } else {
        128 * pow128((n - 1) as nat)
    }
}

/// The unsigned LEB128 number that starts at `at` and takes at most `limit`
/// bytes, with the position behind it: seven bits per byte, least significant
/// group first, the high bit set on every byte but the last.
pub open spec fn leb128(bytes: Seq<u8>, at: int, limit: nat) -> Option<(nat, int)>
    decreases limit,
{
    if limit == 0 || at < 0 || at >= bytes.len() {
        None
    } else if bytes[at] < 128 {
        Some((bytes[at] as nat, at + 1))
    } else {
        match leb128(bytes, at + 1, (limit - 1) as nat) {
            Some((rest, next)) => Some(((bytes[at] - 128) as nat + 128 * rest, next)),
            None => None,
        }
    }
}

/// A number of 64 bits in at most ten bytes.
pub open spec fn u64_at(bytes: Seq<u8>, at: int) -> Option<(u64, int)> {
    match leb128(bytes, at, 10) {
        Some((v, next)) => if v <= u64::MAX {
            Some((v as u64, next))
        } else {
            None
        },
        None => None,
    }
}

/// A number of 32 bits in at most five bytes.
pub open spec fn u32_at(bytes: Seq<u8>, at: int) -> Option<(u32, int)> {
    match leb128(bytes, at, 5) {
        Some((v, next)) => if v <= u32::MAX {
            Some((v as u32, next))
        } else {
            None
        },
        None => None,
    }
}

proof fn lemma_pow128_small(n: nat)
    requires
        n <= 10,
    ensures
        1 <= pow128(n) <= 128 * 0x8000_0000_0000_0000,
{
    assert(pow128(0) == 1);
    assert(pow128(1) == 128);
    assert(pow128(2) == 0x4000);
    assert(pow128(3) == 0x20_0000);
    assert(pow128(4) == 0x1000_0000);
    assert(pow128(5) == 0x8_0000_0000);
    assert(pow128(6) == 0x400_0000_0000);
    assert(pow128(7) == 0x2_0000_0000_0000);
    assert(pow128(8) == 0x100_0000_0000_0000);
    assert(pow128(9) == 0x8000_0000_0000_0000);
    assert(pow128(10) == 128 * 0x8000_0000_0000_0000);
}

proof fn lemma_pow128_positive(n: nat)
    ensures
        1 <= pow128(n),
    decreases n,
{
    if n > 0 {
        lemma_pow128_positive((n - 1) as nat);
    }
}

/// A number read within `limit` bytes ends past its start, inside the input,
/// and stays below `128^limit`.
pub proof fn lemma_leb128_bounds(bytes: Seq<u8>, at: int, limit: nat)
    ensures
        leb128(bytes, at, limit) matches Some((v, next)) ==> at < next <= bytes.len() && next
            <= at + limit && v < pow128(limit),
    decreases limit,
{
    if limit > 0 {
        lemma_pow128_positive((limit - 1) as nat);
        if 0 <= at < bytes.len() && bytes[at] >= 128 {
            lemma_leb128_bounds(bytes, at + 1, (limit - 1) as nat);
        }
    }
}

fn read_leb128(bytes: &[u8], at: usize, limit: u8) -> (res: Option<(u128, usize)>)
    requires
        limit <= 10,
    ensures
        (match res {
            Some((v, next)) => leb128(bytes@, at as int, limit as nat) == Some(
                (v as nat, next as int),
            ) && at < next <= bytes@.len(),
            None => leb128(bytes@, at as int, limit as nat) is None,
        }),
    decreases limit,
{
    if limit == 0 || at >= bytes.len() {
        return None;
    }
    let b = bytes[at];
    if b < 128 {
        return Some((b as u128, at + 1));
    }
    match read_leb128(bytes, at + 1, limit - 1) {
        Some((rest, next)) => {
            proof {
                lemma_leb128_bounds(bytes@, at + 1, (limit - 1) as nat);
                lemma_pow128_small((limit - 1) as nat);
            }
            Some(((b - 128) as u128 + 128 * rest, next))
        },
        None => None,
    }
}

/// Reads a LEB128 number of 64 bits at `at`.
pub fn read_u64(bytes: &[u8], at: usize) -> (res: Option<(u64, usize)>)
    ensures
        (match res {
            Some((v, next)) => u64_at(bytes@, at as int) == Some((v, next as int)) && at < next
                <= bytes@.len(),
            None => u64_at(bytes@, at as int) is None,
        }),
{
    match read_leb128(bytes, at, 10) {
        Some((v, next)) => if v <= u64::MAX as u128 {
            Some((v as u64, next))
        } else {
            None
        },
        None => None,
    }
}

/// Reads a LEB128 number of 32 bits at `at`.
pub fn read_u32(bytes: &[u8], at: usize) -> (res: Option<(u32, usize)>)
    ensures
        (match res {
            Some((v, next)) => u32_at(bytes@, at as int) == Some((v, next as int)) && at < next
                <= bytes@.len(),
            None => u32_at(bytes@, at as int) is None,
        }),
{
    match read_leb128(bytes, at, 5) {
        Some((v, next)) => if v <= u32::MAX as u128 {
            Some((v as u32, next))
        } else {
            None
        },
        None => None,
    }
}

// ---------------------------------------------------------------------------
// Sections
// ---------------------------------------------------------------------------

/// The module starts with the magic bytes and version 1.
pub open spec fn has_module_header(m: Seq<u8>) -> bool {
    &&& m.len() >= 8
    &&& m[0] == 0x00 && m[1] == 0x61 && m[2] == 0x73 && m[3] == 0x6d
    &&& m[4] == 0x01 && m[5] == 0x00 && m[6] == 0x00 && m[7] == 0x00
}

/// Where the data of the first custom section called `name` lies, walking the
/// sections from `at`: its first byte and the byte behind its last. `None`
/// when no such section follows or a section on the way is damaged.
pub open spec fn custom_section_from(m: Seq<u8>, at: int, name: Seq<u8>) -> Option<(int, int)>
    decreases m.len() - at,
{
    if at < 0 || at >= m.len() {
        None
    } else {
        match u32_at(m, at + 1) {
            None => None,
            Some((size, body)) => {
                let end = body + size;
                if end > m.len() || end <= at {
                    None
                } else if m[at] != 0 {
                    custom_section_from(m, end, name)
                } else {
                    match u32_at(m, body) {
                        None => None,
                        Some((name_len, name_at)) => if name_at + name_len > end {
                            None
                        } else if m.subrange(name_at, name_at + name_len) == name {
                            Some((name_at + name_len, end))
                        } else {
                            custom_section_from(m, end, name)
                        },
                    }
                }
            },
        }
    }
}

/// Where the data of the first custom section called `name` lies in the
/// module `m`, if `m` is a module and holds one.
pub open spec fn custom_section(m: Seq<u8>, name: Seq<u8>) -> Option<(int, int)> {
    if has_module_header(m) {
        custom_section_from(m, 8, name)
    } else {
        None
    }
}

/// Whether `m` holds `name` at `at`: enough bytes follow, and they are those
/// of `name`.
pub fn spells(m: &[u8], at: usize, name: &[u8]) -> (same: bool)
    ensures
        same == (at + name@.len() <= m@.len() && m@.subrange(at as int, at + name@.len())
            == name@),
{
    let total = m.len();
    if at > total || name.len() > total - at {
        return false;
    }
    let mut k: usize = 0;
    while k < name.len()
        invariant
            k <= name@.len(),
            total == m@.len(),
            at + name@.len() <= m@.len(),
            forall|i: int| 0 <= i < k ==> m@[at + i] == name@[i],
        decreases name@.len() - k,
    {
        if m[at + k] != name[k] {
            assert(m@.subrange(at as int, at + name@.len())[k as int] != name@[k as int]);
            return false;
        }
        k += 1;
    }
    assert(m@.subrange(at as int, at + name@.len()) =~= name@);
    true
}

/// Whether `m` starts with the module header.
pub fn check_module_header(m: &[u8]) -> (ok: bool)
    ensures
        ok == has_module_header(m@),
{
    m.len() >= 8 && m[0] == 0x00 && m[1] == 0x61 && m[2] == 0x73 && m[3] == 0x6d && m[4] == 0x01
        && m[5] == 0x00 && m[6] == 0x00 && m[7] == 0x00
}

/// Finds the data of the first custom section called `name`.
pub fn find_custom_section(m: &[u8], name: &[u8]) -> (found: Option<(usize, usize)>)
    ensures
        (match found {
            Some((from, to)) => custom_section(m@, name@) == Some((from as int, to as int))
                && from <= to <= m@.len(),
            None => custom_section(m@, name@) is None,
        }),
{
    if !check_module_header(m) {
        return None;
    }
    let mut at: usize = 8;
    while at < m.len()
        invariant
            8 <= at <= m@.len(),
            custom_section(m@, name@) == custom_section_from(m@, at as int, name@),
        decreases m@.len() - at,
    {
        let (size, body) = match read_u32(m, at + 1) {
            Some(pair) => pair,
            None => {
                return None;
            },
        };
        if size as usize > m.len() - body {
            return None;
        }
        let end = body + size as usize;
        if m[at] == 0 {
            let (name_len, name_at) = match read_u32(m, body) {
                Some(pair) => pair,
                None => {
                    return None;
                },
            };
            if name_at > end || name_len as usize > end - name_at {
                return None;
            }
            if name_len as usize == name.len() && spells(m, name_at, name) {
                return Some((name_at + name_len as usize, end));
            }
            assert(m@.subrange(name_at as int, name_at + name_len) != name@) by {
                if name_len as usize != name.len() {
                    assert(m@.subrange(name_at as int, name_at + name_len).len() != name@.len());
                }
            }
        }
        at = end;
    }
    None
}

// ---------------------------------------------------------------------------
// Records
// ---------------------------------------------------------------------------

/// The name of the custom section that holds the debug records:
/// `debug_symbols`.
pub open spec fn debug_section_name() -> Seq<u8> {
    seq![
        0x64u8,
        0x65u8,
        0x62u8,
        0x75u8,
        0x67u8,
        0x5fu8,
        0x73u8,
        0x79u8,
        0x6du8,
        0x62u8,
        0x6fu8,
        0x6cu8,
        0x73u8,
    ]
}

/// A 64-bit number at `at` when `present`, nothing otherwise.
pub open spec fn optional_u64_at(p: Seq<u8>, at: int, present: bool) -> Option<
    (Option<u64>, int),
> {
    if present {
        match u64_at(p, at) {
            Some((v, next)) => Some((Some(v), next)),
            None => None,
        }
    } else {
        Some((None, at))
    }
}

/// A 32-bit number at `at` when `present`, nothing otherwise.
pub open spec fn optional_u32_at(p: Seq<u8>, at: int, present: bool) -> Option<
    (Option<u32>, int),
> {
    if present {
        match u32_at(p, at) {
            Some((v, next)) => Some((Some(v), next)),
            None => None,
        }
    } else {
        Some((None, at))
    }
}

/// The file name at `at`: a length and that many bytes of valid UTF-8.
pub open spec fn file_name_at(p: Seq<u8>, at: int) -> Option<(Seq<char>, int)> {
    match u32_at(p, at) {
        None => None,
        Some((len, from)) => if from + len > p.len() || !valid_utf8(
            p.subrange(from, from + len),
        ) {
            None
        } else {
            Some((decode_utf8(p.subrange(from, from + len)), from + len))
        },
    }
}

/// The record that starts at `at`, with the position behind it.
pub open spec fn record_at(p: Seq<u8>, at: int) -> Option<(RangeView, int)> {
    if at < 0 || at >= p.len() || p[at] > 3 {
        None
    } else {
        match u64_at(p, at + 1) {
            None => None,
            Some((start, a1)) => match optional_u64_at(p, a1, p[at] % 2 == 1) {
                None => None,
                Some((end, a2)) => match u32_at(p, a2) {
                    None => None,
                    Some((line, a3)) => match optional_u32_at(p, a3, p[at] >= 2) {
                        None => None,
                        Some((column, a4)) => match file_name_at(p, a4) {
                            None => None,
                            Some((file, a5)) => Some(
                                (RangeView { start, end, file, line, column }, a5),
                            ),
                        },
                    },
                },
            },
        }
    }
}

/// The records from `at` to the end of the section data `p`, in the order in
/// which they stand; `None` when the data is damaged anywhere.
pub open spec fn records_from(p: Seq<u8>, at: int) -> Option<Seq<RangeView>>
    decreases p.len() - at,
{
    if at >= p.len() {
        Some(Seq::empty())
    } else {
        match record_at(p, at) {
            None => None,
            Some((r, next)) => if next <= at {
                None
            } else {
                match records_from(p, next) {
                    None => None,
                    Some(rest) => Some(seq![r] + rest),
                }
            },
        }
    }
}

/// The debug records of the module `m`, in definition order: those of its
/// `debug_symbols` section, or none where `m` is no module, has no such
/// section, or the section is damaged.
pub open spec fn module_records(m: Seq<u8>) -> Seq<RangeView> {
    match custom_section(m, debug_section_name()) {
        None => Seq::empty(),
        Some((from, to)) => match records_from(m.subrange(from, to), 0) {
            None => Seq::empty(),
            Some(records) => records,
        },
    }
}

/// Wraps `String::from_utf8`: the text that `bytes` encode, or nothing where
/// they are not valid UTF-8.
#[verifier::external_body]
fn utf8_text(bytes: Vec<u8>) -> (text: Option<String>)
    ensures
        (match text {
            Some(s) => valid_utf8(bytes@) && s@ == decode_utf8(bytes@),
            None => !valid_utf8(bytes@),
        }),
{
    String::from_utf8(bytes).ok()
}

fn read_optional_u64(p: &[u8], at: usize, present: bool) -> (res: Option<(Option<u64>, usize)>)
    requires
        at <= p@.len(),
    ensures
        (match res {
            Some((v, next)) => optional_u64_at(p@, at as int, present) == Some((v, next as int))
                && at <= next <= p@.len(),
            None => optional_u64_at(p@, at as int, present) is None,
        }),
{
    if present {
        match read_u64(p, at) {
            Some((v, next)) => Some((Some(v), next)),
            None => None,
        }
    } else {
        Some((None, at))
    }
}

fn read_optional_u32(p: &[u8], at: usize, present: bool) -> (res: Option<(Option<u32>, usize)>)
    requires
        at <= p@.len(),
    ensures
        (match res {
            Some((v, next)) => optional_u32_at(p@, at as int, present) == Some((v, next as int))
                && at <= next <= p@.len(),
            None => optional_u32_at(p@, at as int, present) is None,
        }),
{
    if present {
        match read_u32(p, at) {
            Some((v, next)) => Some((Some(v), next)),
            None => None,
        }
    } else {
        Some((None, at))
    }
}

fn read_file_name(p: &[u8], at: usize) -> (res: Option<(String, usize)>)
    ensures
        (match res {
            Some((name, next)) => file_name_at(p@, at as int) == Some((name@, next as int)) && at
                < next <= p@.len(),
            None => file_name_at(p@, at as int) is None,
        }),
{
    let (len, from) = match read_u32(p, at) {
        Some(pair) => pair,
        None => {
            return None;
        },
    };
    if len as usize > p.len() - from {
        return None;
    }
    let to = from + len as usize;
    let mut raw: Vec<u8> = Vec::new();
    let mut k: usize = from;
    while k < to
        invariant
            from <= k <= to <= p@.len(),
            raw@ == p@.subrange(from as int, k as int),
        decreases to - k,
    {
        raw.push(p[k]);
        assert(p@.subrange(from as int, k + 1) =~= p@.subrange(from as int, k as int).push(
            p@[k as int],
        ));
        k += 1;
    }
    match utf8_text(raw) {
        Some(name) => Some((name, to)),
        None => None,
    }
}

/// Reads the record that starts at `at`.
pub fn read_record(p: &[u8], at: usize) -> (res: Option<(SymbolRange, usize)>)
    ensures
        (match res {
            Some((r, next)) => record_at(p@, at as int) == Some((r@, next as int)) && at < next
                <= p@.len(),
            None => record_at(p@, at as int) is None,
        }),
{
    if at >= p.len() {
        return None;
    }
    let flags = p[at];
    if flags > 3 {
        return None;
    }
    let (start_offset, a1) = match read_u64(p, at + 1) {
        Some(pair) => pair,
        None => {
            return None;
        },
    };
    let (end_offset, a2) = match read_optional_u64(p, a1, flags % 2 == 1) {
        Some(pair) => pair,
        None => {
            return None;
        },
    };
    let (line, a3) = match read_u32(p, a2) {
        Some(pair) => pair,
        None => {
            return None;
        },
    };
    let (column, a4) = match read_optional_u32(p, a3, flags >= 2) {
        Some(pair) => pair,
        None => {
            return None;
        },
    };
    let (file, a5) = match read_file_name(p, a4) {
        Some(pair) => pair,
        None => {
            return None;
        },
    };
    Some((SymbolRange { start_offset, end_offset, file, line, column }, a5))
}

/// Reads all records of the section data `p`.
pub fn read_records(p: &[u8]) -> (res: Option<Vec<SymbolRange>>)
    ensures
        (match res {
            Some(records) => records_from(p@, 0) == Some(range_views(records@)),
            None => records_from(p@, 0) is None,
        }),
{
    let mut records: Vec<SymbolRange> = Vec::new();
    let mut at: usize = 0;
    assert(range_views(records@) =~= Seq::<RangeView>::empty());
    while at < p.len()
        invariant
            at <= p@.len(),
            records_from(p@, 0) == match records_from(p@, at as int) {
                Some(rest) => Some(range_views(records@) + rest),
                None => None,
            },
        decreases p@.len() - at,
    {
        match read_record(p, at) {
            None => {
                return None;
            },
            Some((r, next)) => {
                proof {
                    let done = range_views(records@);
                    assert(range_views(records@.push(r)) =~= done.push(r@));
                    match records_from(p@, next as int) {
                        Some(rest) => {
                            assert(done + (seq![r@] + rest) =~= done.push(r@) + rest);
                        },
                        None => {},
                    }
                }
                records.push(r);
                at = next;
            },
        }
    }
    assert(range_views(records@) + Seq::<RangeView>::empty() =~= range_views(records@));
    Some(records)
}

/// The debug records of a module, in definition order.
pub fn debug_records(module: &[u8]) -> (records: Vec<SymbolRange>)
    ensures
        range_views(records@) == module_records(module@),
{
    let name: [u8; 13] = [
        0x64,
        0x65,
        0x62,
        0x75,
        0x67,
        0x5f,
        0x73,
        0x79,
        0x6d,
        0x62,
        0x6f,
        0x6c,
        0x73,
    ];
    assert(name@ =~= debug_section_name());
    let none: Vec<SymbolRange> = Vec::new();
    assert(range_views(none@) =~= Seq::<RangeView>::empty());
    match find_custom_section(module, name.as_slice()) {
        None => none,
        Some((from, to)) => match read_records(slice_subrange(module, from, to)) {
            None => none,
            Some(records) => records,
        },
    }
}

} // verus!
