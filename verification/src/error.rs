//! Error taxonomy of the decoder.
//!
//! Every error aborts the decode that raised it: no partial packet is
//! returned and nothing is skipped.

use vstd::prelude::*;

verus! {

/// Everything that can go wrong while decoding or encoding a packet.
#[derive(Debug, Clone, PartialEq, Eq)]
pub enum OscError {
    /// Caller-raised error (for target bindings built on top of this crate).
    Message(String),
    /// A typestring character that names no known argument type.
    UnknownType(u8),
    /// An argument was requested after the typestring was exhausted.
    ArgMiscount,
    /// A non-null byte stood where 4-byte alignment demands null padding.
    BadPadding,
    /// The bounded region ended before the bytes a field needs.
    EndOfData,
    /// A token's raw bytes are not valid UTF-8.
    StrParseError,
    /// A leading token that is neither an address nor the bundle marker,
    /// or a typestring that does not begin with a comma.
    MalformedPacket,
    /// A bundle element's declared size differs from its encoded length.
    FramingMismatch,
}

} // verus!
