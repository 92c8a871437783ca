use vstd::prelude::*;
use std::io::Read;
use crate::error::DecodeError;

verus! {

/// `std::io::Error`, the error of both codecs. It is carried through and
/// never looked into.
#[verifier::external_type_specification]
#[verifier::external_body]
pub struct ExIoError(std::io::Error);

/// What a raw DEFLATE decoder makes of `input`: the decompressed bytes, or
/// `None` where it rejects the stream.
pub uninterp spec fn raw_inflate(input: Seq<u8>) -> Option<Seq<u8>>;

/// What a zstd decoder makes of `input`: the decompressed bytes, or `None`
/// where it rejects the stream.
pub uninterp spec fn zstd_decode(input: Seq<u8>) -> Option<Seq<u8>>;

/// Runs `flate2::bufread::DeflateDecoder` over `content` and reads it to the
/// end. Nothing is proved of the decoder: the contract only gives its result
/// the name `raw_inflate(content)`, with `None` standing for an error.
#[verifier::external_body]
fn inflate(content: &[u8]) -> (r: Result<Vec<u8>, std::io::Error>)
    ensures
        match r {
            Ok(bytes) => raw_inflate(content@) == Some(bytes@),
            Err(_) => raw_inflate(content@) is None,
        },
{
    let mut bytes = Vec::new();
    let mut decoder = flate2::bufread::DeflateDecoder::new(content);
    match decoder.read_to_end(&mut bytes) {
        Ok(_) => Ok(bytes),
        Err(e) => Err(e),
    }
}

/// Calls `zstd::stream::decode_all` on `content`. Nothing is proved of the
/// decoder: the contract only gives its result the name
/// `zstd_decode(content)`, with `None` standing for an error.
#[verifier::external_body]
fn unzstd(content: &[u8]) -> (r: Result<Vec<u8>, std::io::Error>)
    ensures
        match r {
            Ok(bytes) => zstd_decode(content@) == Some(bytes@),
            Err(_) => zstd_decode(content@) is None,
        },
{
    zstd::stream::decode_all(content)
}

/// What decompression of a payload yields: nothing for an empty payload,
/// else what the codec makes of it.
pub open spec fn spec_decompress(content: Seq<u8>, codec_result: Option<Seq<u8>>) -> Option<
    Seq<u8>,
> {
    if content.len() == 0 {
        Some(Seq::empty())
    } else {
        codec_result
    }
}

/// Appends the outcome of a codec run to `output`: the bytes where it
/// succeeded, nothing where it failed.
pub fn emit_decoded(output: &mut Vec<u8>, decoded: Result<Vec<u8>, std::io::Error>) -> (r: Result<
    (),
    DecodeError,
>)
    ensures
        match decoded {
            Ok(bytes) => r is Ok && final(output)@ == old(output)@ + bytes@,
            Err(_) => r == Err::<(), DecodeError>(DecodeError::Decompress) && final(output)@ == old(
                output,
            )@,
        },
{
    match decoded {
        Ok(bytes) => {
            output.extend_from_slice(bytes.as_slice());
            Ok(())
        },
        Err(_) => Err(DecodeError::Decompress),
    }
}

/// Inflates `content`, a raw DEFLATE stream, and appends the result to
/// `output`. An empty payload yields nothing and is no error.
pub fn zlib_decompress(output: &mut Vec<u8>, content: &[u8]) -> (r: Result<(), DecodeError>)
    ensures
        match spec_decompress(content@, raw_inflate(content@)) {
            Some(bytes) => r is Ok && final(output)@ == old(output)@ + bytes,
            None => r == Err::<(), DecodeError>(DecodeError::Decompress) && final(output)@ == old(
                output,
            )@,
        },
{
    if content.len() == 0 {
        assert(output@ + Seq::<u8>::empty() =~= output@);
        return Ok(());
    }
    emit_decoded(output, inflate(content))
}

/// Decodes `content`, a zstd stream, and appends the result to `output`. An
/// empty payload yields nothing and is no error.
pub fn zstd_decompress(output: &mut Vec<u8>, content: &[u8]) -> (r: Result<(), DecodeError>)
    ensures
        match spec_decompress(content@, zstd_decode(content@)) {
            Some(bytes) => r is Ok && final(output)@ == old(output)@ + bytes,
            None => r == Err::<(), DecodeError>(DecodeError::Decompress) && final(output)@ == old(
                output,
            )@,
        },
{
    if content.len() == 0 {
        assert(output@ + Seq::<u8>::empty() =~= output@);
        return Ok(());
    }
    emit_decoded(output, unzstd(content))
}

} // verus!
