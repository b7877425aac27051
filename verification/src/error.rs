use vstd::prelude::*;

verus! {

/// The ways a byte stream can be structurally ill-formed.
#[derive(Clone, Copy, Debug, PartialEq, Eq, Structural)]
pub enum Malformation {
    /// The four magic bytes at the start of the module are wrong.
    BadMagic,
    /// An opcode byte that no decoding rule covers.  An `else` byte outside
    /// the then-branch of an `if` is reported the same way.
    UnknownOpcode(u8),
    /// A byte that maps to no value type.
    UnknownValType(u8),
    /// A function type entry that does not start with the fixed tag byte.
    BadFuncTypeTag(u8),
    /// An export description tag that selects no known kind.
    BadExportTag(u8),
    /// An export name that is not valid UTF-8.
    InvalidUtf8,
    /// The function and code sections disagree on the number of functions.
    SectionLengthMismatch,
    /// A section id byte outside the range the format defines.
    UnknownSectionId(u8),
    /// A variable-length integer that is too long or does not fit 64 bits.
    VarintOverflow,
    /// A block type whose type index is negative or does not fit 32 bits.
    BadBlockTypeIndex,
}

/// The single error taxonomy of the decoder.
#[derive(Clone, Copy, Debug, PartialEq, Eq, Structural)]
pub enum DecodeError {
    /// The stream ended in the middle of a read.
    UnexpectedEof,
    /// The stream is structurally ill-formed; the payload says how.
    Malformed(Malformation),
    /// The header names a version other than 1.
    UnsupportedVersion(u32),
    /// A section the format defines but this decoder does not handle.
    /// The payload is the section id.  Skipping such a section silently
    /// would renumber function indices, so it is a hard failure.
    UnsupportedFeature(u8),
}

} // verus!
