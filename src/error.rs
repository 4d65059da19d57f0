//! The outcomes that an encode or decode call can fail with.
use vstd::prelude::*;

use crate::value::Fault;

verus! {

#[verifier::external_type_specification]
#[verifier::external_body]
pub struct ExIoError(std::io::Error);

/// Why an encode or decode call failed. Every failure ends the call.
#[derive(Debug)]
pub enum Error {
    /// A failure of the layer above the codec, such as a length that does not
    /// fit its prefix or a variant tag that names no variant.
    Message(String),
    /// A read or write failed for a reason other than the end of the stream.
    Io(std::io::Error),
    /// A sequence or mapping was offered for encoding without its count.
    LengthNotKnown,
    /// A decoded string's bytes are not valid UTF-8.
    InvalidString,
    /// A decoded code point is not a Unicode scalar value.
    InvalidChar,
    /// Bytes were left over after the value was decoded from a buffer.
    TrailingBytes,
    /// The input ended before the value did.
    EofWhileDeserializing,
}

/// The text of the error for a variant tag that names no variant of the
/// union being decoded.
pub const UNKNOWN_VARIANT: &'static str = "variant tag names no variant of the union";

/// The error `e` is the one that the decoder reports for the fault `f`.
pub open spec fn reports(e: Error, f: Fault) -> bool {
    match f {
        Fault::Truncated => e is EofWhileDeserializing,
        Fault::NotUtf8 => e is InvalidString,
        Fault::NotScalar => e is InvalidChar,
        Fault::UnknownVariant => e matches Error::Message(m) && m@ == UNKNOWN_VARIANT@,
    }
}

/// Whether the kind of the I/O error `err` is `UnexpectedEof`.
pub uninterp spec fn kind_is_eof(err: std::io::Error) -> bool;

/// Relies on `std::io::Error::kind`: tells an end of stream apart from other
/// I/O failures.
#[verifier::external_body]
fn is_unexpected_eof(err: &std::io::Error) -> (r: bool)
    ensures
        r == kind_is_eof(*err),
{
    err.kind() == std::io::ErrorKind::UnexpectedEof
}

/// Relies on the `Display` form of `std::io::Error`: the text of an I/O
/// failure, as the platform words it.
#[verifier::external_body]
fn io_text(err: &std::io::Error) -> String {
    err.to_string()
}

impl Error {
    /// Classifies an I/O failure: an end of stream becomes
    /// `EofWhileDeserializing`, anything else is kept as `Io`.
    pub fn io(err: std::io::Error) -> (r: Error)
        ensures
            kind_is_eof(err) ==> r is EofWhileDeserializing,
            !kind_is_eof(err) ==> r == Error::Io(err),
    {
        if is_unexpected_eof(&err) {
            Error::EofWhileDeserializing
        } else {
            Error::Io(err)
        }
    }

    /// A failure described by the caller.
    pub fn custom(msg: &str) -> (r: Error)
        ensures
            r is Message,
            r->Message_0@ == msg@,
    {
        Error::Message(msg.to_owned())
    }

    /// A human-readable description of the failure.
    pub fn describe(&self) -> (r: String)
        ensures
            match self {
                Error::Message(m) => r@ == m@,
                Error::Io(_) => true,
                Error::LengthNotKnown => r@ == "length not known"@,
                Error::InvalidString => r@ == "invalid string"@,
                Error::InvalidChar => r@ == "invalid char"@,
                Error::TrailingBytes => r@ == "trailing bytes"@,
                Error::EofWhileDeserializing => r@ == "EOF while deserializing"@,
            },
    {
        match self {
            Error::Message(m) => m.as_str().to_owned(),
            Error::Io(err) => io_text(err),
            Error::LengthNotKnown => "length not known".to_owned(),
            Error::InvalidString => "invalid string".to_owned(),
            Error::InvalidChar => "invalid char".to_owned(),
            Error::TrailingBytes => "trailing bytes".to_owned(),
            Error::EofWhileDeserializing => "EOF while deserializing".to_owned(),
        }
    }
}

} // verus!
