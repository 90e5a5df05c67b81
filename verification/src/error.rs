//! The ways in which encoding and decoding fail.

use vstd::prelude::*;

verus! {

/// Why a value could not be written.
#[derive(Debug, Clone, Copy, PartialEq, Eq, Structural)]
pub enum EncodeError {
    /// A length, byte count or code-unit count is above the bound of its field.
    SizeExceeded,
    /// The elements of an NBT list are not all of one kind.
    MixedList,
    /// An End tag stands where a compound entry needs a value.
    EndInCompound,
    /// Two entries of an NBT compound share a name.
    DuplicateKey,
}

/// Why a value could not be read.
#[derive(Debug, Clone, Copy, PartialEq, Eq, Structural)]
pub enum DecodeError {
    /// The input ends before the value does.
    UnexpectedEof,
    /// A variable-length integer runs on past the most bytes its width allows.
    VarNumTooLarge,
    /// A length or count prefix is negative.
    NegativeLength,
    /// A length, byte count or code-unit count is above the bound of its field.
    SizeExceeded,
    /// String bytes are not UTF-8, or a code-unit count ends inside a character.
    InvalidUtf8,
    /// An NBT tag id above 12.
    UnknownTag,
    /// An enumeration index that names no variant.
    UnknownVariant,
}

} // verus!
