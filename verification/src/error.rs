//! Errors met while converting between ASTERIX bytes and values.
use vstd::prelude::*;

verus! {

/// Errors encountered while converting to and from asterix.
#[derive(Debug)]
#[allow(inconsistent_fields)]
pub enum Error {
    /// Not yet implemented: several UAPs.
    MultipleUaps,
    /// Not yet implemented: BDS items.
    BdsNotImplemented,
    /// Amount of bytes written was higher than the expected limit.
    TooManyBytesWritten {
        /// The amount that was actually written.
        written: usize,
        /// Expected limit.
        limit: usize,
    },
    /// Amount of repetitive items was higher than the expected limit.
    TooManyRepetitiveItems {
        /// Amount of repetitive items.
        count: usize,
        /// Expected limit.
        limit: usize,
    },
    /// Category specification doesn't match the category of data.
    MismatchedCategory {
        /// Category that was provided.
        category: u8,
        /// Actual category id of the data.
        got: Option<u64>,
    },
    /// Provided category doesn't have expected field.
    InvalidCategoryField {
        /// Provided category.
        category: u8,
        /// The invalid field.
        field: String,
    },
    /// Provided value is expected to be an object.
    ExpectedMap,
    /// Provided value is expected to be an array.
    ExpectedArray,
    /// Invalid value provided as an item for a repetitive field.
    RepetitiveExpectsArray,
    /// Variable doesn't contain any subitems.
    NoVariableSubitems,
    /// Provided value is expected to be a number.
    ExpectedNumber {
        /// The field that contains a number.
        field: String,
    },
    /// AIS string is too long.
    AisTooLong {
        /// Invalid string.
        string: String,
    },
    /// Provided data contains an octal digit out of range.
    InvalidOcatlCode {
        /// The invalid code encountered.
        code: u64,
    },
    /// The field expects a string for its ASCII encoding.
    ExpectedStringForAscii {
        /// The field that caused this error.
        field: String,
    },
    /// String was longer than the expected length.
    AsciiStringTooLong {
        /// The string that caused this error.
        string: String,
    },
    /// The string contains an invalid ASCII character.
    InvalidAsciiChar {
        /// The invalid character.
        chr: char,
        /// The string that caused this error.
        string: String,
    },
    /// The AIS string provided contains an invalid character.
    InvalidAisChar {
        /// The invalid character.
        chr: char,
        /// The string provided.
        string: String,
    },
    /// The AIS code isn't in the expected range.
    InvalidAisCode {
        /// Invalid code.
        code: u8,
    },
    /// The data provided was shorter than the expected length.
    ReadingOob,
    /// An explicit item still has unread data.
    ExplicitHasDataLeft,
    /// FSPEC has unknown bits set for the provided specification.
    UnknownFspecField {
        /// Byte that contains the invalid bit.
        byte: u8,
        /// Index of the invalid byte.
        index: usize,
    },
    /// Specification error.
    InvalidSpec {
        /// More info about this error.
        child: InvalidSpec,
    },
}

/// Errors encountered while working with a parsed specification.
#[derive(Debug)]
pub enum InvalidSpec {
    /// UAP contains an FRN that is not a number.
    FrnNotANumber {
        /// The field that contains invalid FRN.
        field: String,
    },
    /// UAP contains an FRN of zero.
    FrnIsZero {
        /// The field that contains invalid FRN.
        field: String,
    },
    /// The category has no data item for a field.
    MissingDataItem {
        /// The field data is missing for.
        field: String,
    },
    /// FX bit was used twice.
    FxUsedTwice,
    /// FX bit is set outside of a Variable item.
    FxOutsideVariable,
    /// FX bit was not used in a Variable's Fixed part.
    FxNotUsed,
    /// Variable doesn't contain only fixed items.
    ExpectedFixedInVariable,
    /// Compound is empty or starts with something other than a variable.
    ExpectedVariableInCompound,
    /// Bad bit/from/to combination: expected only `bit`, or both `from` and `to`.
    BadBitCombination {
        /// Bit index.
        bit: Option<u32>,
        /// Bit range start index.
        from: Option<u32>,
        /// Bit range end index.
        to: Option<u32>,
    },
    /// Bits inside a Fixed item have gaps, or do not align with its length.
    NonContinousBits,
    /// Compound index bit not found.
    InvalidCompoundSubitem,
    /// Compound subitem index is higher than the amount of items.
    CompoundSubitemOob,
    /// A character is not a multiple of 6 bits.
    SixBitsCharNotAligned,
    /// An ASCII field length is not a multiple of 8 bits.
    BadAsciiLength {
        /// The field with incorrect character bit length.
        field: String,
    },
    /// Index of the UAP is higher than the amount of available UAPs.
    UapIndexOob,
}

impl Error {
    /// Wraps a specification error, as `From<InvalidSpec>` does.
    pub fn spec(child: InvalidSpec) -> (e: Error)
        ensures
            e == (Error::InvalidSpec { child }),
    {
        Error::InvalidSpec { child }
    }
}

impl From<InvalidSpec> for Error {
    fn from(child: InvalidSpec) -> (e: Error) {
        Error::InvalidSpec { child }
    }
}

impl vstd::std_specs::convert::FromSpecImpl<InvalidSpec> for Error {
    open spec fn obeys_from_spec() -> bool {
        true
    }

    open spec fn from_spec(child: InvalidSpec) -> Error {
        Error::InvalidSpec { child }
    }
}

/// The model of a specification error: its strings by their characters.
pub enum InvalidSpecV {
    FrnNotANumber { field: Seq<char> },
    FrnIsZero { field: Seq<char> },
    MissingDataItem { field: Seq<char> },
    FxUsedTwice,
    FxOutsideVariable,
    FxNotUsed,
    ExpectedFixedInVariable,
    ExpectedVariableInCompound,
    BadBitCombination { bit: Option<u32>, from: Option<u32>, to: Option<u32> },
    NonContinousBits,
    InvalidCompoundSubitem,
    CompoundSubitemOob,
    SixBitsCharNotAligned,
    BadAsciiLength { field: Seq<char> },
    UapIndexOob,
}

/// The model of an error: its strings by their characters.
#[allow(inconsistent_fields)]
pub enum ErrorV {
    MultipleUaps,
    BdsNotImplemented,
    TooManyBytesWritten { written: usize, limit: usize },
    TooManyRepetitiveItems { count: usize, limit: usize },
    MismatchedCategory { category: u8, got: Option<u64> },
    InvalidCategoryField { category: u8, field: Seq<char> },
    ExpectedMap,
    ExpectedArray,
    RepetitiveExpectsArray,
    NoVariableSubitems,
    ExpectedNumber { field: Seq<char> },
    AisTooLong { string: Seq<char> },
    InvalidOcatlCode { code: u64 },
    ExpectedStringForAscii { field: Seq<char> },
    AsciiStringTooLong { string: Seq<char> },
    InvalidAsciiChar { chr: char, string: Seq<char> },
    InvalidAisChar { chr: char, string: Seq<char> },
    InvalidAisCode { code: u8 },
    ReadingOob,
    ExplicitHasDataLeft,
    UnknownFspecField { byte: u8, index: usize },
    InvalidSpec { child: InvalidSpecV },
}

impl View for InvalidSpec {
    type V = InvalidSpecV;

    open spec fn view(&self) -> InvalidSpecV {
        match self {
            InvalidSpec::FrnNotANumber { field } => InvalidSpecV::FrnNotANumber { field: field@ },
            InvalidSpec::FrnIsZero { field } => InvalidSpecV::FrnIsZero { field: field@ },
            InvalidSpec::MissingDataItem { field } => InvalidSpecV::MissingDataItem { field: field@ },
            InvalidSpec::FxUsedTwice => InvalidSpecV::FxUsedTwice,
            InvalidSpec::FxOutsideVariable => InvalidSpecV::FxOutsideVariable,
            InvalidSpec::FxNotUsed => InvalidSpecV::FxNotUsed,
            InvalidSpec::ExpectedFixedInVariable => InvalidSpecV::ExpectedFixedInVariable,
            InvalidSpec::ExpectedVariableInCompound => InvalidSpecV::ExpectedVariableInCompound,
            InvalidSpec::BadBitCombination { bit, from, to } => InvalidSpecV::BadBitCombination { bit: *bit, from: *from, to: *to },
            InvalidSpec::NonContinousBits => InvalidSpecV::NonContinousBits,
            InvalidSpec::InvalidCompoundSubitem => InvalidSpecV::InvalidCompoundSubitem,
            InvalidSpec::CompoundSubitemOob => InvalidSpecV::CompoundSubitemOob,
            InvalidSpec::SixBitsCharNotAligned => InvalidSpecV::SixBitsCharNotAligned,
            InvalidSpec::BadAsciiLength { field } => InvalidSpecV::BadAsciiLength { field: field@ },
            InvalidSpec::UapIndexOob => InvalidSpecV::UapIndexOob,
        }
    }
}

impl View for Error {
    type V = ErrorV;

    open spec fn view(&self) -> ErrorV {
        match self {
            Error::MultipleUaps => ErrorV::MultipleUaps,
            Error::BdsNotImplemented => ErrorV::BdsNotImplemented,
            Error::TooManyBytesWritten { written, limit } => ErrorV::TooManyBytesWritten { written: *written, limit: *limit },
            Error::TooManyRepetitiveItems { count, limit } => ErrorV::TooManyRepetitiveItems { count: *count, limit: *limit },
            Error::MismatchedCategory { category, got } => ErrorV::MismatchedCategory { category: *category, got: *got },
            Error::InvalidCategoryField { category, field } => ErrorV::InvalidCategoryField { category: *category, field: field@ },
            Error::ExpectedMap => ErrorV::ExpectedMap,
            Error::ExpectedArray => ErrorV::ExpectedArray,
            Error::RepetitiveExpectsArray => ErrorV::RepetitiveExpectsArray,
            Error::NoVariableSubitems => ErrorV::NoVariableSubitems,
            Error::ExpectedNumber { field } => ErrorV::ExpectedNumber { field: field@ },
            Error::AisTooLong { string } => ErrorV::AisTooLong { string: string@ },
            Error::InvalidOcatlCode { code } => ErrorV::InvalidOcatlCode { code: *code },
            Error::ExpectedStringForAscii { field } => ErrorV::ExpectedStringForAscii { field: field@ },
            Error::AsciiStringTooLong { string } => ErrorV::AsciiStringTooLong { string: string@ },
            Error::InvalidAsciiChar { chr, string } => ErrorV::InvalidAsciiChar { chr: *chr, string: string@ },
            Error::InvalidAisChar { chr, string } => ErrorV::InvalidAisChar { chr: *chr, string: string@ },
            Error::InvalidAisCode { code } => ErrorV::InvalidAisCode { code: *code },
            Error::ReadingOob => ErrorV::ReadingOob,
            Error::ExplicitHasDataLeft => ErrorV::ExplicitHasDataLeft,
            Error::UnknownFspecField { byte, index } => ErrorV::UnknownFspecField { byte: *byte, index: *index },
            Error::InvalidSpec { child } => ErrorV::InvalidSpec { child: child@ },
        }
    }
}

/// How a conversion can end other than with a result: with an error, or
/// with a panic of the arithmetic or of an assertion, which the contracts
/// of this library exclude.
pub enum Fail {
    /// An error is returned.
    Error(ErrorV),
    /// The computation panics.
    Panic,
}

} // verus!
