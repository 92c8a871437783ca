//! Decoder for xlog archives: streams of framed log records that may be
//! compressed with zlib or zstd and encrypted with TEA under a key agreed by
//! elliptic-curve Diffie-Hellman over secp256k1.
//!
//! [`decode::Context`] decodes a whole archive held in memory. The modules
//! below it hold the parts: the frame layout and its validator, the scan for
//! the next well-formed frame, the payload treatments, and the primitives
//! they rest on.

pub mod codec;
pub mod decode;
pub mod ecdh;
pub mod error;
pub mod frame;
pub mod hex;
pub mod integer;
pub mod magic;
pub mod payload;
pub mod sequence;
pub mod tea;
pub mod text;
