//! Decoding one object-file byte buffer into a structured record.
//!
//! The layout is: a fixed 20-byte header of five little-endian `u32` fields
//! (`symbol_offset`, `symbol_count`, `relocation_offset`, `relocation_count`,
//! `code_offset`); a symbol table of `symbol_count` entries, each a 1-byte
//! name length, the name bytes (UTF-8) and a 4-byte address; a relocation
//! table of `relocation_count` entries, each a 1-byte name length, the name
//! bytes, a 4-byte site count and that many 4-byte site offsets; and code,
//! which is every byte from `code_offset` to the end of the buffer. Any
//! cursor read past the end of the buffer, and any name that is not valid
//! UTF-8, is a fatal decode error.

use crate::errors::{DecodeError, RelocationPart, SymbolPart};
use crate::tables::{record_all, ObjectFile, ObjectModel, RelocationTable, SymbolTable};
use vstd::bytes::{spec_u32_from_le_bytes, u32_from_le_bytes};
use vstd::prelude::*;
use vstd::slice::{slice_subrange, slice_to_vec};
use vstd::utf8::{decode_utf8, valid_utf8};

verus! {

/// The value of the four little-endian bytes of `b` starting at `pos`.
pub open spec fn le_u32_at(b: Seq<u8>, pos: int) -> u32 {
    spec_u32_from_le_bytes(b.subrange(pos, pos + 4))
}

/// The fixed five-field preamble of an object file.
#[derive(Clone, Copy, PartialEq, Eq, Structural, Debug)]
pub struct Header {
    /// Byte position of the symbol table within the buffer.
    pub symbol_offset: u32,
    /// Number of symbol-table entries.
    pub symbol_count: u32,
    /// Byte position of the relocation table within the buffer.
    pub relocation_offset: u32,
    /// Number of relocation-table entries.
    pub relocation_count: u32,
    /// Byte position at which the code begins; it runs to the end of the buffer.
    pub code_offset: u32,
}

/// The header read from the first 20 bytes of `b`, or `None` when the buffer
/// is shorter than that.
pub open spec fn spec_header(b: Seq<u8>) -> Option<Header> {
    if b.len() < 20 {
        None
    } else {
        Some(
            Header {
                symbol_offset: le_u32_at(b, 0),
                symbol_count: le_u32_at(b, 4),
                relocation_offset: le_u32_at(b, 8),
                relocation_count: le_u32_at(b, 12),
                code_offset: le_u32_at(b, 16),
            },
        )
    }
}

/// Reads the four little-endian bytes of `b` starting at `pos`.
fn read_u32_at(b: &[u8], pos: usize) -> (r: u32)
    requires
        pos + 4 <= b@.len(),
    ensures
        r == le_u32_at(b@, pos as int),
{
    let len = b.len();
    proof {
        assert(pos + 4 <= len);
    }
    let s = slice_subrange(b, pos, pos + 4);
    u32_from_le_bytes(s)
}

impl Header {
    /// Reads the fixed header from the start of an object-file buffer.
    pub fn from_slice(buffer: &[u8]) -> (r: Result<Header, DecodeError>)
        ensures
            spec_header(buffer@) matches Some(h) ==> r == Ok::<Header, DecodeError>(h),
            spec_header(buffer@) is None ==> r == Err::<Header, DecodeError>(
                DecodeError::HeaderTruncated,
            ),
    {
        if buffer.len() < 20 {
            return Err(DecodeError::HeaderTruncated);
        }
        Ok(
            Header {
                symbol_offset: read_u32_at(buffer, 0),
                symbol_count: read_u32_at(buffer, 4),
                relocation_offset: read_u32_at(buffer, 8),
                relocation_count: read_u32_at(buffer, 12),
                code_offset: read_u32_at(buffer, 16),
            },
        )
    }
}

/// Relies on `String::from_utf8`: it succeeds exactly on valid UTF-8 input
/// and decodes those bytes to their characters.
#[verifier::external_body]
fn string_from_utf8(bytes: Vec<u8>) -> (r: Option<String>)
    ensures
        (r is Some) == valid_utf8(bytes@),
        r matches Some(s) ==> s@ == decode_utf8(bytes@),
{
    String::from_utf8(bytes).ok()
}

/// The symbol entries read from `b` starting at `pos`, with the cursor
/// position after them; `count` entries remain and `index` entries came
/// before. An entry is a 1-byte name length, the name bytes and a 4-byte
/// little-endian address.
pub open spec fn parse_symbols(b: Seq<u8>, pos: int, count: int, index: int) -> Result<
    (Seq<(Seq<char>, u32)>, int),
    DecodeError,
>
    decreases count,
{
    if count <= 0 {
        Ok((Seq::empty(), pos))
    } else if !(0 <= pos && pos + 1 <= b.len()) {
        Err(DecodeError::SymbolTruncated { index: index as u32, part: SymbolPart::NameLength })
    } else {
        let n = b[pos] as int;
        if pos + 1 + n > b.len() {
            Err(DecodeError::SymbolTruncated { index: index as u32, part: SymbolPart::NameBytes })
        } else if !valid_utf8(b.subrange(pos + 1, pos + 1 + n)) {
            Err(DecodeError::SymbolNameNotUtf8 { index: index as u32 })
        } else if pos + 1 + n + 4 > b.len() {
            Err(DecodeError::SymbolTruncated { index: index as u32, part: SymbolPart::Address })
        } else {
            let name = decode_utf8(b.subrange(pos + 1, pos + 1 + n));
            let address = le_u32_at(b, pos + 1 + n);
            match parse_symbols(b, pos + 1 + n + 4, count - 1, index + 1) {
                Ok((rest, end)) => Ok((seq![(name, address)] + rest, end)),
                Err(e) => Err(e),
            }
        }
    }
}

/// `r` with `acc` prepended to its entries.
pub open spec fn symbols_with_prefix(
    acc: Seq<(Seq<char>, u32)>,
    r: Result<(Seq<(Seq<char>, u32)>, int), DecodeError>,
) -> Result<(Seq<(Seq<char>, u32)>, int), DecodeError> {
    match r {
        Ok((rest, end)) => Ok((acc + rest, end)),
        Err(e) => Err(e),
    }
}

/// Reads `count` symbol-table entries starting at `offset`, recording each
/// name at its address; a later entry shadows an earlier one with the same
/// name.
pub fn read_symbols(buffer: &[u8], offset: u32, count: u32) -> (r: Result<
    SymbolTable,
    DecodeError,
>)
    ensures
        r matches Ok(t) ==> parse_symbols(buffer@, offset as int, count as int, 0) matches Ok(p)
            && t@ == p.0,
        r matches Err(e) ==> parse_symbols(buffer@, offset as int, count as int, 0) == Err::<
            (Seq<(Seq<char>, u32)>, int),
            DecodeError,
        >(e),
{
    let ghost whole = parse_symbols(buffer@, offset as int, count as int, 0);
    let mut table = SymbolTable::new();
    let mut pos: usize = offset as usize;
    let mut i: u32 = 0;
    while i < count
        invariant
            i <= count,
            pos <= usize::MAX,
            whole == parse_symbols(buffer@, offset as int, count as int, 0),
            whole == symbols_with_prefix(
                table@,
                parse_symbols(buffer@, pos as int, count as int - i, i as int),
            ),
        decreases count - i,
    {
        let ghost entries_before = table@;
        if pos >= buffer.len() {
            return Err(DecodeError::SymbolTruncated { index: i, part: SymbolPart::NameLength });
        }
        let n = buffer[pos] as usize;
        if n > buffer.len() - pos - 1 {
            return Err(DecodeError::SymbolTruncated { index: i, part: SymbolPart::NameBytes });
        }
        let name_bytes = slice_to_vec(slice_subrange(buffer, pos + 1, pos + 1 + n));
        let name = match string_from_utf8(name_bytes) {
            Some(s) => s,
            None => {
                return Err(DecodeError::SymbolNameNotUtf8 { index: i });
            },
        };
        if buffer.len() - (pos + 1 + n) < 4 {
            return Err(DecodeError::SymbolTruncated { index: i, part: SymbolPart::Address });
        }
        let address = read_u32_at(buffer, pos + 1 + n);
        table.insert(name, address);
        pos = pos + 1 + n + 4;
        i = i + 1;
        proof {
            let ghost rest = parse_symbols(buffer@, pos as int, count as int - i, i as int);
            match rest {
                Ok((rest_entries, end)) => {
                    assert(entries_before + (seq![(name@, address)] + rest_entries)
                        =~= entries_before.push((name@, address)) + rest_entries);
                },
                Err(_) => {},
            }
        }
    }
    proof {
        assert(parse_symbols(buffer@, pos as int, 0, i as int) == Ok::<
            (Seq<(Seq<char>, u32)>, int),
            DecodeError,
        >((Seq::<(Seq<char>, u32)>::empty(), pos as int)));
        assert(table@ + Seq::<(Seq<char>, u32)>::empty() =~= table@);
    }
    Ok(table)
}

/// The `count` site offsets read from `b` starting at `pos`, each four
/// little-endian bytes, with the cursor position after them; `None` when a
/// read would run past the end of the buffer.
pub open spec fn parse_sites(b: Seq<u8>, pos: int, count: int) -> Option<(Seq<u32>, int)>
    decreases count,
{
    if count <= 0 {
        Some((Seq::empty(), pos))
    } else if !(0 <= pos && pos + 4 <= b.len()) {
        None
    } else {
        match parse_sites(b, pos + 4, count - 1) {
            Some((rest, end)) => Some((seq![le_u32_at(b, pos)] + rest, end)),
            None => None,
        }
    }
}

/// The relocation entries read from `b` starting at `pos`, with the cursor
/// position after them; `count` entries remain and `index` entries came
/// before. An entry is a 1-byte name length, the name bytes, a 4-byte site
/// count and that many 4-byte site offsets.
pub open spec fn parse_relocations(b: Seq<u8>, pos: int, count: int, index: int) -> Result<
    (Seq<(Seq<char>, Seq<u32>)>, int),
    DecodeError,
>
    decreases count,
{
    if count <= 0 {
        Ok((Seq::empty(), pos))
    } else if !(0 <= pos && pos + 1 <= b.len()) {
        Err(
            DecodeError::RelocationTruncated {
                index: index as u32,
                part: RelocationPart::NameLength,
            },
        )
    } else {
        let n = b[pos] as int;
        if pos + 1 + n > b.len() {
            Err(
                DecodeError::RelocationTruncated {
                    index: index as u32,
                    part: RelocationPart::NameBytes,
                },
            )
        } else if !valid_utf8(b.subrange(pos + 1, pos + 1 + n)) {
            Err(DecodeError::RelocationNameNotUtf8 { index: index as u32 })
        } else if pos + 1 + n + 4 > b.len() {
            Err(
                DecodeError::RelocationTruncated {
                    index: index as u32,
                    part: RelocationPart::SiteCount,
                },
            )
        } else {
            let name = decode_utf8(b.subrange(pos + 1, pos + 1 + n));
            let site_count = le_u32_at(b, pos + 1 + n);
            match parse_sites(b, pos + 1 + n + 4, site_count as int) {
                None => Err(
                    DecodeError::RelocationTruncated {
                        index: index as u32,
                        part: RelocationPart::Site,
                    },
                ),
                Some((sites, sites_end)) => match parse_relocations(
                    b,
                    sites_end,
                    count - 1,
                    index + 1,
                ) {
                    Ok((rest, end)) => Ok((seq![(name, sites)] + rest, end)),
                    Err(e) => Err(e),
                },
            }
        }
    }
}

/// `r` with `acc` prepended to its entries.
pub open spec fn relocations_with_prefix(
    acc: Seq<(Seq<char>, Seq<u32>)>,
    r: Result<(Seq<(Seq<char>, Seq<u32>)>, int), DecodeError>,
) -> Result<(Seq<(Seq<char>, Seq<u32>)>, int), DecodeError> {
    match r {
        Ok((rest, end)) => Ok((acc + rest, end)),
        Err(e) => Err(e),
    }
}

/// The relocation table built by recording each raw entry in order,
/// accumulating the sites of repeated names.
pub open spec fn accumulate_relocations(raw: Seq<(Seq<char>, Seq<u32>)>) -> Seq<
    (Seq<char>, Seq<u32>),
> {
    record_all(Seq::empty(), raw)
}

/// Reads the `count` site offsets of one relocation entry, starting at `pos`.
fn read_sites(buffer: &[u8], pos: usize, count: u32) -> (r: Option<(Vec<u32>, usize)>)
    requires
        pos <= buffer@.len(),
    ensures
        r matches Some(p) ==> parse_sites(buffer@, pos as int, count as int) == Some(
            (p.0@, p.1 as int),
        ) && p.1 <= buffer@.len(),
        r is None ==> parse_sites(buffer@, pos as int, count as int) is None,
{
    let ghost whole = parse_sites(buffer@, pos as int, count as int);
    let mut sites: Vec<u32> = Vec::new();
    let mut cursor = pos;
    let mut i: u32 = 0;
    proof {
        assert(sites@ =~= Seq::<u32>::empty());
    }
    while i < count
        invariant
            i <= count,
            cursor <= buffer@.len(),
            whole == parse_sites(buffer@, pos as int, count as int),
            whole matches Some(w) ==> (parse_sites(buffer@, cursor as int, count as int - i)
                matches Some(rest) && w.0 == sites@ + rest.0 && w.1 == rest.1),
            whole is None ==> parse_sites(buffer@, cursor as int, count as int - i) is None,
        decreases count - i,
    {
        let ghost sites_before = sites@;
        if buffer.len() - cursor < 4 {
            return None;
        }
        let site = read_u32_at(buffer, cursor);
        sites.push(site);
        cursor = cursor + 4;
        i = i + 1;
        proof {
            match parse_sites(buffer@, cursor as int, count as int - i) {
                Some((rest, end)) => {
                    assert(sites_before + (seq![site] + rest) =~= sites_before.push(site) + rest);
                },
                None => {},
            }
        }
    }
    proof {
        assert(sites@ + Seq::<u32>::empty() =~= sites@);
    }
    Some((sites, cursor))
}

/// Reads `count` relocation-table entries starting at `offset`, recording
/// the sites of each entry under its name and accumulating the sites of
/// repeated names.
pub fn read_relocations(buffer: &[u8], offset: u32, count: u32) -> (r: Result<
    RelocationTable,
    DecodeError,
>)
    ensures
        r matches Ok(t) ==> parse_relocations(buffer@, offset as int, count as int, 0) matches Ok(
            p,
        ) && t@ == accumulate_relocations(p.0) && t.wf(),
        r matches Err(e) ==> parse_relocations(buffer@, offset as int, count as int, 0) == Err::<
            (Seq<(Seq<char>, Seq<u32>)>, int),
            DecodeError,
        >(e),
{
    let ghost whole = parse_relocations(buffer@, offset as int, count as int, 0);
    let mut table = RelocationTable::new();
    let ghost mut raw: Seq<(Seq<char>, Seq<u32>)> = Seq::empty();
    let mut pos: usize = offset as usize;
    let mut i: u32 = 0;
    while i < count
        invariant
            i <= count,
            pos <= usize::MAX,
            whole == parse_relocations(buffer@, offset as int, count as int, 0),
            whole == relocations_with_prefix(
                raw,
                parse_relocations(buffer@, pos as int, count as int - i, i as int),
            ),
            table@ == accumulate_relocations(raw),
            table.wf(),
        decreases count - i,
    {
        let ghost raw_before = raw;
        if pos >= buffer.len() {
            return Err(
                DecodeError::RelocationTruncated { index: i, part: RelocationPart::NameLength },
            );
        }
        let n = buffer[pos] as usize;
        if n > buffer.len() - pos - 1 {
            return Err(
                DecodeError::RelocationTruncated { index: i, part: RelocationPart::NameBytes },
            );
        }
        let name_bytes = slice_to_vec(slice_subrange(buffer, pos + 1, pos + 1 + n));
        let name = match string_from_utf8(name_bytes) {
            Some(s) => s,
            None => {
                return Err(DecodeError::RelocationNameNotUtf8 { index: i });
            },
        };
        if buffer.len() - (pos + 1 + n) < 4 {
            return Err(
                DecodeError::RelocationTruncated { index: i, part: RelocationPart::SiteCount },
            );
        }
        let site_count = read_u32_at(buffer, pos + 1 + n);
        let (sites, sites_end) = match read_sites(buffer, pos + 1 + n + 4, site_count) {
            Some(p) => p,
            None => {
                return Err(
                    DecodeError::RelocationTruncated { index: i, part: RelocationPart::Site },
                );
            },
        };
        let ghost entry = (name@, sites@);
        table.record(name, sites);
        pos = sites_end;
        i = i + 1;
        proof {
            raw = raw_before.push(entry);
            assert(raw.drop_last() =~= raw_before);
            match parse_relocations(buffer@, pos as int, count as int - i, i as int) {
                Ok((rest, end)) => {
                    assert(raw_before + (seq![entry] + rest) =~= raw_before.push(entry) + rest);
                },
                Err(_) => {},
            }
        }
    }
    proof {
        assert(parse_relocations(buffer@, pos as int, 0, i as int) == Ok::<
            (Seq<(Seq<char>, Seq<u32>)>, int),
            DecodeError,
        >((Seq::<(Seq<char>, Seq<u32>)>::empty(), pos as int)));
        assert(raw + Seq::<(Seq<char>, Seq<u32>)>::empty() =~= raw);
    }
    Ok(table)
}

/// The structured record decoded from one object-file buffer, or the first
/// decode error: the header is read, then the symbol table, then the
/// relocation table, and the code is everything from `code_offset` on.
pub open spec fn spec_decode(b: Seq<u8>) -> Result<ObjectModel, DecodeError> {
    match spec_header(b) {
        None => Err(DecodeError::HeaderTruncated),
        Some(h) => match parse_symbols(b, h.symbol_offset as int, h.symbol_count as int, 0) {
            Err(e) => Err(e),
            Ok((symbols, _)) => match parse_relocations(
                b,
                h.relocation_offset as int,
                h.relocation_count as int,
                0,
            ) {
                Err(e) => Err(e),
                Ok((raw, _)) => if h.code_offset > b.len() {
                    Err(DecodeError::CodeOffsetOutOfBounds)
                } else {
                    Ok(
                        ObjectModel {
                            symbols: symbols,
                            relocations: accumulate_relocations(raw),
                            code: b.subrange(h.code_offset as int, b.len() as int),
                        },
                    )
                },
            },
        },
    }
}

/// Decodes one object-file buffer into its symbol table, relocation table
/// and code bytes. The result is a function of the buffer alone, so decoding
/// the same buffer twice yields identical records.
pub fn decode_object(buffer: &[u8]) -> (r: Result<ObjectFile, DecodeError>)
    ensures
        r matches Ok(o) ==> spec_decode(buffer@) matches Ok(m) && o@ == m && o.wf(),
        r matches Err(e) ==> spec_decode(buffer@) == Err::<ObjectModel, DecodeError>(e),
{
    let header = match Header::from_slice(buffer) {
        Ok(h) => h,
        Err(e) => {
            return Err(e);
        },
    };
    let symbols = match read_symbols(buffer, header.symbol_offset, header.symbol_count) {
        Ok(t) => t,
        Err(e) => {
            return Err(e);
        },
    };
    let relocations = match read_relocations(
        buffer,
        header.relocation_offset,
        header.relocation_count,
    ) {
        Ok(t) => t,
        Err(e) => {
            return Err(e);
        },
    };
    if buffer.len() < header.code_offset as usize {
        return Err(DecodeError::CodeOffsetOutOfBounds);
    }
    let code = slice_to_vec(slice_subrange(buffer, header.code_offset as usize, buffer.len()));
    let object = ObjectFile { symbols, relocations, code };
    proof {
        assert(object@ =~~= spec_decode(buffer@)->Ok_0);
    }
    Ok(object)
}

/// Decoding is deterministic: one buffer decodes to one record. Two
/// successful decodes of the same buffer yield identical symbol tables,
/// relocation tables and code.
pub proof fn lemma_decode_deterministic(b: Seq<u8>, m1: ObjectModel, m2: ObjectModel)
    requires
        spec_decode(b) == Ok::<ObjectModel, DecodeError>(m1),
        spec_decode(b) == Ok::<ObjectModel, DecodeError>(m2),
    ensures
        m1 == m2,
{
}

} // verus!
