use vstd::prelude::*;

verus! {

/// What can go wrong while identifying, decoding or parsing a file.
#[derive(Debug, Clone, Copy, PartialEq, Eq, Structural)]
pub enum FormatError {
    /// The leading bytes name no format that is handled.
    UnknownFormat,
    /// No byte-shift table exists for the detected version and variant.
    NoByteshiftTable,
    /// The bytecode version byte is outside the supported set.
    UnsupportedVersion(u8),
    /// The types version byte is above the supported bound.
    UnsupportedTypesVersion(u8),
    /// The stream ended, or a value overflowed, while reading at this offset.
    Truncated(usize),
    /// A symbol-table index read at this offset lies outside the table.
    SymbolOutOfRange(usize),
    /// An unknown constant tag was read at this offset.
    InvalidConstant(usize),
}

} // verus!
