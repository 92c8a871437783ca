use vstd::prelude::*;

verus! {

/// Legacy frame without compression; four-byte key field.
pub const NO_COMPRESS_START: u8 = 0x03;

/// Legacy frame, zlib; four-byte key field.
pub const COMPRESS_START: u8 = 0x04;

/// Legacy frame, zlib in length-prefixed pieces; four-byte key field.
pub const COMPRESS_START1: u8 = 0x05;

/// Encrypted frame without compression.
pub const NO_COMPRESS_START1: u8 = 0x06;

/// Encrypted frame, zlib.
pub const COMPRESS_START2: u8 = 0x07;

/// Unencrypted frame without compression.
pub const NO_COMPRESS_NO_CRYPT_START: u8 = 0x08;

/// Unencrypted frame, zlib.
pub const COMPRESS_NO_CRYPT_START: u8 = 0x09;

/// Encrypted frame of the zstd family, written synchronously; its payload
/// is passed through.
pub const SYNC_ZSTD_START: u8 = 0x0A;

/// Unencrypted frame of the zstd family, written synchronously; its payload
/// is passed through.
pub const SYNC_NO_CRYPT_ZSTD_START: u8 = 0x0B;

/// Encrypted frame, zstd.
pub const ASYNC_ZSTD_START: u8 = 0x0C;

/// Unencrypted frame, zstd.
pub const ASYNC_NO_CRYPT_ZSTD_START: u8 = 0x0D;

/// Terminator byte that closes every frame.
pub const END: u8 = 0x00;

/// Bytes of a frame that precede its key field: magic, sequence number, the
/// two hour bytes and the payload length.
pub const FIXED_HEADER_LEN: usize = 9;

/// What the decoder does with the payload of a frame.
#[derive(Clone, Copy, Debug, PartialEq, Eq, Structural)]
pub enum Treatment {
    /// The payload is written as it stands.
    Raw,
    /// The frame is encrypted and no key was given: a notice replaces the
    /// payload.
    WrongScript,
    /// The payload is one raw DEFLATE stream.
    Zlib,
    /// The payload is a run of length-prefixed pieces of one raw DEFLATE
    /// stream.
    ZlibChunked,
    /// The payload is a zstd stream.
    Zstd,
    /// The payload is TEA-encrypted; the plaintext is a raw DEFLATE stream.
    DecryptZlib,
    /// The payload is TEA-encrypted; the plaintext is a zstd stream.
    DecryptZstd,
}

/// Whether `magic` opens a frame.
pub open spec fn is_start_magic(magic: u8) -> bool {
    NO_COMPRESS_START <= magic <= ASYNC_NO_CRYPT_ZSTD_START
}

/// Length in bytes of the key field of a frame that starts with `magic`, or
/// `None` when the byte opens no frame.
pub open spec fn spec_key_len(magic: u8) -> Option<int> {
    if magic == NO_COMPRESS_START || magic == COMPRESS_START || magic == COMPRESS_START1 {
        Some(4)
    } else if is_start_magic(magic) {
        Some(64)
    } else {
        None
    }
}

/// What is done with the payload of a frame that starts with `magic`,
/// depending on whether the caller supplied a private key.
pub open spec fn spec_treatment(magic: u8, has_key: bool) -> Treatment {
    if magic == NO_COMPRESS_START1 || magic == SYNC_ZSTD_START {
        if has_key {
            Treatment::Raw
        } else {
            Treatment::WrongScript
        }
    } else if magic == COMPRESS_START2 {
        if has_key {
            Treatment::DecryptZlib
        } else {
            Treatment::WrongScript
        }
    } else if magic == ASYNC_ZSTD_START {
        if has_key {
            Treatment::DecryptZstd
        } else {
            Treatment::WrongScript
        }
    } else if magic == ASYNC_NO_CRYPT_ZSTD_START {
        Treatment::Zstd
    } else if magic == COMPRESS_START || magic == COMPRESS_NO_CRYPT_START {
        Treatment::Zlib
    } else if magic == COMPRESS_START1 {
        Treatment::ZlibChunked
    } else {
        Treatment::Raw
    }
}

/// Whether `magic` opens a frame.
pub fn is_start(magic: u8) -> (r: bool)
    ensures
        r == is_start_magic(magic),
{
    NO_COMPRESS_START <= magic && magic <= ASYNC_NO_CRYPT_ZSTD_START
}

/// Key-field length of a frame that starts with `magic`.
pub fn key_len(magic: u8) -> (r: Option<usize>)
    ensures
        match r {
            Some(n) => spec_key_len(magic) == Some(n as int),
            None => spec_key_len(magic) is None,
        },
{
    if magic == NO_COMPRESS_START || magic == COMPRESS_START || magic == COMPRESS_START1 {
        Some(4)
    } else if is_start(magic) {
        Some(64)
    } else {
        None
    }
}

/// Payload treatment of a frame that starts with `magic`.
pub fn treatment(magic: u8, has_key: bool) -> (r: Treatment)
    ensures
        r == spec_treatment(magic, has_key),
{
    if magic == NO_COMPRESS_START1 || magic == SYNC_ZSTD_START {
        if has_key {
            Treatment::Raw
        } else {
            Treatment::WrongScript
        }
    } else if magic == COMPRESS_START2 {
        if has_key {
            Treatment::DecryptZlib
        } else {
            Treatment::WrongScript
        }
    } else if magic == ASYNC_ZSTD_START {
        if has_key {
            Treatment::DecryptZstd
        } else {
            Treatment::WrongScript
        }
    } else if magic == ASYNC_NO_CRYPT_ZSTD_START {
        Treatment::Zstd
    } else if magic == COMPRESS_START || magic == COMPRESS_NO_CRYPT_START {
        Treatment::Zlib
    } else if magic == COMPRESS_START1 {
        Treatment::ZlibChunked
    } else {
        Treatment::Raw
    }
}

} // verus!
