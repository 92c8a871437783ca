use vstd::prelude::*;

verus! {

/// Why decoding stopped.
#[derive(Clone, Copy, Debug, PartialEq, Eq, Structural)]
pub enum DecodeError {
    /// The read position is at or past the end of the input.
    UnexpectedEof,
    /// No position of the archive starts a run of well-formed frames.
    InvalidArchive,
    /// The bytes at the read position are no frame, and no later position
    /// starts one.
    ResyncFailed,
    /// The byte at the read position opens no frame.
    UnknownMagic,
    /// The private key is no hex string of 32 bytes, or the key agreement
    /// rejected one of the keys.
    Crypto,
    /// A codec rejected a payload.
    Decompress,
    /// A length-prefixed piece of a payload runs past the payload's end.
    BadSubRecord,
}

impl DecodeError {
    /// A short description of the error.
    pub fn message(&self) -> (r: &'static str)
        ensures
            r@ == match *self {
                DecodeError::UnexpectedEof => "unexpected end of input"@,
                DecodeError::InvalidArchive => "invalid archive"@,
                DecodeError::ResyncFailed => "cannot locate log start"@,
                DecodeError::UnknownMagic => "unknown magic"@,
                DecodeError::Crypto => "Get ECDH key error"@,
                DecodeError::Decompress => "decompression failed"@,
                DecodeError::BadSubRecord => "truncated sub-record"@,
            },
    {
        match self {
            DecodeError::UnexpectedEof => "unexpected end of input",
            DecodeError::InvalidArchive => "invalid archive",
            DecodeError::ResyncFailed => "cannot locate log start",
            DecodeError::UnknownMagic => "unknown magic",
            DecodeError::Crypto => "Get ECDH key error",
            DecodeError::Decompress => "decompression failed",
            DecodeError::BadSubRecord => "truncated sub-record",
        }
    }
}

} // verus!
