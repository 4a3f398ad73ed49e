//! Error types for decoding and linking.
//!
//! Every detected problem is fatal for the whole link. Decode errors name the
//! field and the table index at which the cursor ran out or the name failed to
//! decode; unresolved-symbol errors aggregate every missing name in one value.

use vstd::prelude::*;
use vstd::string::StringExecFns;

verus! {

/// The field of a symbol-table entry at which a decode error was detected.
#[derive(Clone, Copy, PartialEq, Eq, Structural, Debug)]
pub enum SymbolPart {
    /// The 1-byte name length.
    NameLength,
    /// The name bytes themselves.
    NameBytes,
    /// The 4-byte symbol address.
    Address,
}

/// The field of a relocation-table entry at which a decode error was detected.
#[derive(Clone, Copy, PartialEq, Eq, Structural, Debug)]
pub enum RelocationPart {
    /// The 1-byte name length.
    NameLength,
    /// The name bytes themselves.
    NameBytes,
    /// The 4-byte count of sites.
    SiteCount,
    /// A 4-byte site offset.
    Site,
}

/// A fatal problem found while decoding one object-file buffer.
#[derive(Clone, Copy, PartialEq, Eq, Structural, Debug)]
pub enum DecodeError {
    /// The buffer is shorter than the fixed 20-byte header.
    HeaderTruncated,
    /// Reading the given field of the symbol at `index` ran past the buffer.
    SymbolTruncated { index: u32, part: SymbolPart },
    /// The name bytes of the symbol at `index` are not valid UTF-8.
    SymbolNameNotUtf8 { index: u32 },
    /// Reading the given field of the relocation at `index` ran past the buffer.
    RelocationTruncated { index: u32, part: RelocationPart },
    /// The name bytes of the relocation at `index` are not valid UTF-8.
    RelocationNameNotUtf8 { index: u32 },
    /// The header's code offset lies beyond the end of the buffer.
    CodeOffsetOutOfBounds,
}

/// A fatal problem found while linking a sequence of object files.
#[derive(Debug)]
pub enum LinkError {
    /// The object file at position `file` in the input order failed to decode.
    Decode { file: usize, error: DecodeError },
    /// Every relocation name with no definition in the merged symbol table,
    /// in relocation-table order, aggregated into one report.
    Unresolved { names: Vec<String> },
    /// A relocation site of a resolved symbol does not leave room for a
    /// 4-byte patch inside the merged code buffer.
    SiteOutOfRange { site: u32 },
    /// Rebasing an address or appending code would exceed the 32-bit
    /// address space of the object-file format.
    ImageTooLarge,
}

/// Mathematical model of a [`LinkError`]: the aggregated names become a
/// sequence of character sequences.
#[verifier::ext_equal]
pub ghost enum LinkErrorModel {
    Decode { file: int, error: DecodeError },
    Unresolved { names: Seq<Seq<char>> },
    SiteOutOfRange { site: u32 },
    ImageTooLarge,
}

impl View for LinkError {
    type V = LinkErrorModel;

    open spec fn view(&self) -> LinkErrorModel {
        match self {
            LinkError::Decode { file, error } => LinkErrorModel::Decode {
                file: *file as int,
                error: *error,
            },
            LinkError::Unresolved { names } => LinkErrorModel::Unresolved {
                names: names.deep_view(),
            },
            LinkError::SiteOutOfRange { site } => LinkErrorModel::SiteOutOfRange { site: *site },
            LinkError::ImageTooLarge => LinkErrorModel::ImageTooLarge,
        }
    }
}

/// The decimal digit character for `d`.
pub open spec fn dec_digit(d: int) -> char {
    if d == 0 {
        '0'
    } else if d == 1 {
        '1'
    } else if d == 2 {
        '2'
    } else if d == 3 {
        '3'
    } else if d == 4 {
        '4'
    } else if d == 5 {
        '5'
    } else if d == 6 {
        '6'
    } else if d == 7 {
        '7'
    } else if d == 8 {
        '8'
    } else {
        '9'
    }
}

/// The decimal digits of `n`, most significant first.
pub open spec fn dec_chars(n: int) -> Seq<char>
    recommends
        n >= 0,
    decreases n,
{
    if n < 10 {
        seq![dec_digit(n)]
    } else {
        dec_chars(n / 10).push(dec_digit(n % 10))
    }
}

/// Appends the decimal digits of `n` to `s`.
fn push_decimal(s: &mut String, n: u64)
    ensures
        final(s)@ == old(s)@ + dec_chars(n as int),
    decreases n,
{
    let ghost prefix = s@;
    if n >= 10 {
        push_decimal(s, n / 10);
    }
    let ghost mid = s@;
    let d = n % 10;
    if d == 0 {
        s.append("0");
    } else if d == 1 {
        s.append("1");
    } else if d == 2 {
        s.append("2");
    } else if d == 3 {
        s.append("3");
    } else if d == 4 {
        s.append("4");
    } else if d == 5 {
        s.append("5");
    } else if d == 6 {
        s.append("6");
    } else if d == 7 {
        s.append("7");
    } else if d == 8 {
        s.append("8");
    } else {
        s.append("9");
    }
    proof {
        reveal_strlit("0");
        reveal_strlit("1");
        reveal_strlit("2");
        reveal_strlit("3");
        reveal_strlit("4");
        reveal_strlit("5");
        reveal_strlit("6");
        reveal_strlit("7");
        reveal_strlit("8");
        reveal_strlit("9");
        assert(s@ =~= mid + seq![dec_digit(d as int)]);
        if n < 10 {
            assert(s@ =~= prefix + dec_chars(n as int));
        } else {
            assert(mid == prefix + dec_chars(n as int / 10));
            assert(s@ =~= prefix + dec_chars(n as int / 10).push(dec_digit(n as int % 10)));
        }
    }
}

/// The field of a symbol-table entry, in words.
pub open spec fn symbol_part_text(part: SymbolPart) -> Seq<char> {
    match part {
        SymbolPart::NameLength => "name length"@,
        SymbolPart::NameBytes => "name bytes"@,
        SymbolPart::Address => "address"@,
    }
}

/// The field of a relocation-table entry, in words.
pub open spec fn relocation_part_text(part: RelocationPart) -> Seq<char> {
    match part {
        RelocationPart::NameLength => "name length"@,
        RelocationPart::NameBytes => "name bytes"@,
        RelocationPart::SiteCount => "site count"@,
        RelocationPart::Site => "site offset"@,
    }
}

/// A one-line description of a decode error, naming the field and the table
/// index at which it was detected.
pub open spec fn decode_error_text(error: DecodeError) -> Seq<char> {
    match error {
        DecodeError::HeaderTruncated => "header runs past the end of the buffer"@,
        DecodeError::SymbolTruncated { index, part } => "symbol "@ + dec_chars(index as int)
            + ": "@ + symbol_part_text(part) + " runs past the end of the buffer"@,
        DecodeError::SymbolNameNotUtf8 { index } => "symbol "@ + dec_chars(index as int)
            + ": name is not valid UTF-8"@,
        DecodeError::RelocationTruncated { index, part } => "relocation "@ + dec_chars(
            index as int,
        ) + ": "@ + relocation_part_text(part) + " runs past the end of the buffer"@,
        DecodeError::RelocationNameNotUtf8 { index } => "relocation "@ + dec_chars(index as int)
            + ": name is not valid UTF-8"@,
        DecodeError::CodeOffsetOutOfBounds => "code offset lies beyond the end of the buffer"@,
    }
}

/// Appends the field of a symbol-table entry, in words.
fn append_symbol_part(s: &mut String, part: SymbolPart)
    ensures
        final(s)@ == old(s)@ + symbol_part_text(part),
{
    match part {
        SymbolPart::NameLength => s.append("name length"),
        SymbolPart::NameBytes => s.append("name bytes"),
        SymbolPart::Address => s.append("address"),
    }
}

/// Appends the field of a relocation-table entry, in words.
fn append_relocation_part(s: &mut String, part: RelocationPart)
    ensures
        final(s)@ == old(s)@ + relocation_part_text(part),
{
    match part {
        RelocationPart::NameLength => s.append("name length"),
        RelocationPart::NameBytes => s.append("name bytes"),
        RelocationPart::SiteCount => s.append("site count"),
        RelocationPart::Site => s.append("site offset"),
    }
}

impl DecodeError {
    /// A one-line description naming the field and the table index at which
    /// the error was detected.
    pub fn message(&self) -> (r: String)
        ensures
            r@ == decode_error_text(*self),
    {
        match self {
            DecodeError::HeaderTruncated => String::from_str(
                "header runs past the end of the buffer",
            ),
            DecodeError::SymbolTruncated { index, part } => {
                let mut s = String::from_str("symbol ");
                push_decimal(&mut s, *index as u64);
                s.append(": ");
                append_symbol_part(&mut s, *part);
                s.append(" runs past the end of the buffer");
                s
            },
            DecodeError::SymbolNameNotUtf8 { index } => {
                let mut s = String::from_str("symbol ");
                push_decimal(&mut s, *index as u64);
                s.append(": name is not valid UTF-8");
                s
            },
            DecodeError::RelocationTruncated { index, part } => {
                let mut s = String::from_str("relocation ");
                push_decimal(&mut s, *index as u64);
                s.append(": ");
                append_relocation_part(&mut s, *part);
                s.append(" runs past the end of the buffer");
                s
            },
            DecodeError::RelocationNameNotUtf8 { index } => {
                let mut s = String::from_str("relocation ");
                push_decimal(&mut s, *index as u64);
                s.append(": name is not valid UTF-8");
                s
            },
            DecodeError::CodeOffsetOutOfBounds => String::from_str(
                "code offset lies beyond the end of the buffer",
            ),
        }
    }
}

/// The names joined with a comma and a space between each pair.
pub open spec fn join_names(names: Seq<Seq<char>>) -> Seq<char>
    decreases names.len(),
{
    if names.len() == 0 {
        Seq::empty()
    } else if names.len() == 1 {
        names[0]
    } else {
        join_names(names.drop_last()) + ", "@ + names.last()
    }
}

impl LinkError {
    /// A one-line description of the failure; for an unresolved-symbol error
    /// it names every missing symbol, in relocation-table order.
    pub fn message(&self) -> (r: String)
        ensures
            self@ matches LinkErrorModel::Decode { file, error } ==> r@ == "object file "@
                + dec_chars(file) + " failed to decode: "@ + decode_error_text(error),
            self@ matches LinkErrorModel::Unresolved { names } ==> r@ == "Unresolved symbols: "@
                + join_names(names),
            self@ matches LinkErrorModel::SiteOutOfRange { .. } ==> r@
                == "relocation site out of range"@,
            self@ == LinkErrorModel::ImageTooLarge ==> r@
                == "merged image exceeds the 32-bit address space"@,
    {
        match self {
            LinkError::Decode { file, error } => {
                let mut s = String::from_str("object file ");
                push_decimal(&mut s, *file as u64);
                s.append(" failed to decode: ");
                let detail = error.message();
                s.append(detail.as_str());
                s
            },
            LinkError::Unresolved { names } => {
                let ghost dv = names.deep_view();
                let mut s = String::from_str("Unresolved symbols: ");
                let count = names.len();
                let mut i: usize = 0;
                proof {
                    assert(s@ + join_names(dv.take(0)) =~= s@);
                }
                while i < count
                    invariant
                        i <= count,
                        count == names@.len(),
                        dv == names.deep_view(),
                        s@ == "Unresolved symbols: "@ + join_names(dv.take(i as int)),
                    decreases count - i,
                {
                    if i > 0 {
                        s.append(", ");
                    }
                    s.append(names[i].as_str());
                    proof {
                        assert(dv.take(i + 1).drop_last() =~= dv.take(i as int));
                        assert(dv.take(i + 1).last() == dv[i as int]);
                        assert(dv[i as int] == names@[i as int]@);
                        if i == 0 {
                            assert(join_names(dv.take(1)) == dv[0]);
                            assert(s@ =~= "Unresolved symbols: "@ + join_names(dv.take(1)));
                        } else {
                            assert(join_names(dv.take(i + 1)) == join_names(dv.take(i as int))
                                + ", "@ + dv[i as int]);
                            assert(s@ =~= "Unresolved symbols: "@ + join_names(dv.take(i + 1)));
                        }
                    }
                    i = i + 1;
                }
                proof {
                    assert(dv.take(count as int) =~= dv);
                }
                s
            },
            LinkError::SiteOutOfRange { .. } => String::from_str("relocation site out of range"),
            LinkError::ImageTooLarge => String::from_str(
                "merged image exceeds the 32-bit address space",
            ),
        }
    }
}

} // verus!
