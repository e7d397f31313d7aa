use vstd::prelude::*;

verus! {

/// Why a document could not be read or written.
///
/// Every failure is a deterministic property of the bytes or of the document
/// at hand, so none of them is worth retrying.
#[derive(Clone, Copy, Debug, PartialEq, Eq, Structural)]
pub enum SolError {
    /// The first two bytes are not the container's magic number.
    UnsupportedFormat,
    /// The type marker or the tail constant of the header is wrong.
    MalformedHeader,
    /// The version byte names neither of the two value encodings.
    UnknownVersion,
    /// A key, a string value or the root name is not valid UTF-8.
    Utf8Decode,
    /// A value starts with a type tag that the encoding does not define, or
    /// the decoder of the richer value encoding refuses it for what it
    /// holds.
    UnexpectedType,
    /// The bytes end in the middle of a field.
    UnexpectedEof,
    /// The declared body length falls inside a record, or the body to write
    /// does not fit the 32-bit length field.
    LengthMismatch,
    /// A key, a string value or the root name to write is longer than its
    /// length prefix can state.
    StringTooLong,
    /// A value to write is one that the encoder of the richer value
    /// encoding does not take.
    Unsupported,
}

/// The failures that reading a value can end in.
pub open spec fn value_fault(e: SolError) -> bool {
    e == SolError::UnexpectedEof || e == SolError::Utf8Decode || e == SolError::UnexpectedType
}

/// The failures that reading a body can end in.
pub open spec fn body_fault(e: SolError) -> bool {
    value_fault(e) || e == SolError::LengthMismatch
}

/// The failures that reading a document can end in: every failure but
/// those of writing.
pub open spec fn read_fault(e: SolError) -> bool {
    body_fault(e) || e == SolError::UnsupportedFormat || e == SolError::MalformedHeader || e
        == SolError::UnknownVersion
}

} // verus!
