//! The ways in which decoding or writing can fail.

use vstd::prelude::*;

verus! {

/// Why an operation on a byte source, a byte sink or one of the two
/// containers gave up. Every error ends the operation that raised it.
#[derive(Clone, Copy, Debug, PartialEq, Eq, Structural)]
pub enum ZfsError {
    /// The four magic bytes are not those of the container.
    InvalidSignature,
    /// The image's format code is neither 0 nor 1.
    UnknownPixelFormat,
    /// The source holds fewer bytes than were asked for.
    ShortRead,
    /// The sink took fewer bytes than were handed to it.
    ShortWrite,
    /// The position asked for cannot be represented.
    SeekFailure,
    /// The archive header declares tables of no entries.
    EmptyTable,
    /// The archive header declares entries whose name field has no bytes.
    EmptyNameField,
    /// The image header declares rows shorter than their pixels.
    InvalidPitch,
    /// The image has no pixels, so there is nothing to encode.
    EmptyImage,
    /// The PNG encoder refused the image.
    PngEncoding,
}

/// Why decoding stopped, and the position at which the reader was left.
pub type Failure = (ZfsError, int);

impl ZfsError {
    /// A short description for messages.
    pub fn message(&self) -> (s: &'static str)
        ensures
            s@ == self.message_text(),
    {
        match self {
            ZfsError::InvalidSignature => "invalid signature",
            ZfsError::UnknownPixelFormat => "unknown pixel format",
            ZfsError::ShortRead => "unexpected end of data",
            ZfsError::ShortWrite => "sink is full",
            ZfsError::SeekFailure => "position out of range",
            ZfsError::EmptyTable => "tables hold no entries",
            ZfsError::EmptyNameField => "name field is empty",
            ZfsError::InvalidPitch => "pitch is shorter than a row of pixels",
            ZfsError::EmptyImage => "image has no pixels",
            ZfsError::PngEncoding => "PNG encoding failed",
        }
    }

    /// The text that [`ZfsError::message`] returns.
    pub open spec fn message_text(&self) -> Seq<char> {
        match self {
            ZfsError::InvalidSignature => "invalid signature"@,
            ZfsError::UnknownPixelFormat => "unknown pixel format"@,
            ZfsError::ShortRead => "unexpected end of data"@,
            ZfsError::ShortWrite => "sink is full"@,
            ZfsError::SeekFailure => "position out of range"@,
            ZfsError::EmptyTable => "tables hold no entries"@,
            ZfsError::EmptyNameField => "name field is empty"@,
            ZfsError::InvalidPitch => "pitch is shorter than a row of pixels"@,
            ZfsError::EmptyImage => "image has no pixels"@,
            ZfsError::PngEncoding => "PNG encoding failed"@,
        }
    }
}

} // verus!
