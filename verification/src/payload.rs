use vstd::prelude::*;
use vstd::slice::{slice_subrange, slice_to_vec};
use vstd::string::*;
use vstd::utf8::encode_utf8;
use crate::codec::{raw_inflate, spec_decompress, zlib_decompress, zstd_decode, zstd_decompress};
use crate::ecdh::{spec_shared_secret, ucc_shared_secret_whith_secp2561k1, PRIVATE_KEY_LEN};
use crate::error::DecodeError;
use crate::hex::{decode_hex, spec_decode_hex};
use crate::integer::{le2, read_integer};
use crate::magic::{spec_treatment, treatment, Treatment};
use crate::tea::{decrypt_payload, spec_decrypt_payload, spec_tea_key, tea_key};
use crate::text::{push_wrong_script_line, wrong_script_line};

verus! {

/// The pieces of a payload made of length-prefixed sub-records, joined: each
/// sub-record is a little-endian 16-bit length and that many bytes. `None`
/// where a sub-record runs past the end of the payload.
pub open spec fn spec_join_chunks(buf: Seq<u8>) -> Option<Seq<u8>>
    decreases buf.len(),
{
    if buf.len() == 0 {
        Some(Seq::empty())
    } else if buf.len() < 2 || 2 + le2(buf) > buf.len() {
        None
    } else {
        match spec_join_chunks(buf.subrange(2 + le2(buf), buf.len() as int)) {
            Some(rest) => Some(buf.subrange(2, 2 + le2(buf)) + rest),
            None => None,
        }
    }
}

/// What decryption makes of a payload: the private key is decoded from hex,
/// the shared secret of it and of the frame's key field gives the TEA key,
/// and the whole blocks of the payload are decrypted.
pub open spec fn spec_plaintext(key: Seq<char>, key_field: Seq<u8>, payload: Seq<u8>) -> Result<
    Seq<u8>,
    DecodeError,
> {
    match spec_decode_hex(encode_utf8(key)) {
        None => Err(DecodeError::Crypto),
        Some(private_key) => match spec_shared_secret(key_field, private_key) {
            None => Err(DecodeError::Crypto),
            Some(secret) => Ok(spec_decrypt_payload(payload, spec_tea_key(secret))),
        },
    }
}

/// The bytes that a codec run contributes, or the error that stands for its
/// failure.
pub open spec fn decompressed(content: Seq<u8>, codec_result: Option<Seq<u8>>) -> Result<
    Seq<u8>,
    DecodeError,
> {
    match spec_decompress(content, codec_result) {
        Some(bytes) => Ok(bytes),
        None => Err(DecodeError::Decompress),
    }
}

/// The bytes that a frame contributes to the output, or the error that its
/// payload ends in. `key` is the private key as given, empty for none.
pub open spec fn spec_payload_output(
    magic: u8,
    key: Seq<char>,
    key_field: Seq<u8>,
    payload: Seq<u8>,
) -> Result<Seq<u8>, DecodeError> {
    match spec_treatment(magic, key.len() > 0) {
        Treatment::Raw => Ok(payload),
        Treatment::WrongScript => Ok(wrong_script_line()),
        Treatment::Zlib => decompressed(payload, raw_inflate(payload)),
        Treatment::ZlibChunked => match spec_join_chunks(payload) {
            Some(joined) => decompressed(joined, raw_inflate(joined)),
            None => Err(DecodeError::BadSubRecord),
        },
        Treatment::Zstd => decompressed(payload, zstd_decode(payload)),
        Treatment::DecryptZlib => match spec_plaintext(key, key_field, payload) {
            Ok(plain) => decompressed(plain, raw_inflate(plain)),
            Err(e) => Err(e),
        },
        Treatment::DecryptZstd => match spec_plaintext(key, key_field, payload) {
            Ok(plain) => decompressed(plain, zstd_decode(plain)),
            Err(e) => Err(e),
        },
    }
}

/// Joins the length-prefixed sub-records of `buf`.
pub fn join_chunks(buf: &[u8]) -> (r: Result<Vec<u8>, DecodeError>)
    ensures
        match r {
            Ok(joined) => spec_join_chunks(buf@) == Some(joined@),
            Err(e) => spec_join_chunks(buf@) is None && e == DecodeError::BadSubRecord,
        },
{
    let n: usize = buf.len();
    let mut joined: Vec<u8> = Vec::with_capacity(1024);
    let mut pos: usize = 0;
    proof {
        assert(buf@.subrange(0, n as int) =~= buf@);
        match spec_join_chunks(buf@) {
            Some(rest) => {
                assert(joined@ + rest =~= rest);
            },
            None => {},
        }
    }
    while pos < n
        invariant
            pos <= n,
            n == buf@.len(),
            spec_join_chunks(buf@) == match spec_join_chunks(buf@.subrange(pos as int, n as int)) {
                Some(rest) => Some(joined@ + rest),
                None => None,
            },
        decreases n - pos,
    {
        let ghost rest = buf@.subrange(pos as int, n as int);
        if n - pos < 2 {
            return Err(DecodeError::BadSubRecord);
        }
        let len: usize = read_integer::<u16>(slice_subrange(buf, pos, pos + 2)) as usize;
        proof {
            assert(buf@.subrange(pos as int, pos + 2).subrange(0, 2) =~= buf@.subrange(
                pos as int,
                pos + 2,
            ));
            assert(le2(rest) == len) by {
                assert(rest[0] == buf@[pos as int]);
                assert(rest[1] == buf@[pos + 1]);
            }
        }
        if len > n - pos - 2 {
            return Err(DecodeError::BadSubRecord);
        }
        let ghost before = joined@;
        joined.extend_from_slice(slice_subrange(buf, pos + 2, pos + 2 + len));
        proof {
            assert(rest.subrange(2, 2 + len) =~= buf@.subrange(pos + 2, pos + 2 + len));
            assert(rest.subrange(2 + len, rest.len() as int) =~= buf@.subrange(
                pos + 2 + len,
                n as int,
            ));
            match spec_join_chunks(buf@.subrange(pos + 2 + len, n as int)) {
                Some(tail) => {
                    assert(before + (rest.subrange(2, 2 + len) + tail) =~= joined@ + tail);
                },
                None => {},
            }
        }
        pos = pos + 2 + len;
    }
    proof {
        assert(buf@.subrange(pos as int, n as int) =~= Seq::<u8>::empty());
        assert(joined@ + Seq::<u8>::empty() =~= joined@);
    }
    Ok(joined)
}

/// Decrypts the payload of a frame with the private key `private_key`, a hex
/// string, and the public key that the frame's key field holds.
pub fn plaintext(private_key: &str, key_field: &[u8], payload: &[u8]) -> (r: Result<
    Vec<u8>,
    DecodeError,
>)
    ensures
        match r {
            Ok(plain) => spec_plaintext(private_key@, key_field@, payload@) == Ok::<
                Seq<u8>,
                DecodeError,
            >(plain@),
            Err(e) => spec_plaintext(private_key@, key_field@, payload@) == Err::<
                Seq<u8>,
                DecodeError,
            >(e),
        },
{
    let mut private: Vec<u8> = match decode_hex(private_key) {
        Ok(bytes) => bytes,
        Err(_) => {
            return Err(DecodeError::Crypto);
        },
    };
    let mut public: Vec<u8> = slice_to_vec(key_field);
    let mut secret: Vec<u8> = vec![0u8; PRIVATE_KEY_LEN];
    match ucc_shared_secret_whith_secp2561k1(
        public.as_mut_slice(),
        private.as_mut_slice(),
        secret.as_mut_slice(),
    ) {
        None => {
            return Err(DecodeError::Crypto);
        },
        Some(_) => {},
    }
    assert(secret@ =~= spec_shared_secret(key_field@, private@).unwrap());
    let mut key: Vec<u32> = tea_key(secret.as_slice());
    let mut content: Vec<u8> = slice_to_vec(payload);
    decrypt_payload(&mut content, key.as_mut_slice());
    Ok(content)
}

/// Writes to `output` what the frame with the given magic, key field and
/// payload contributes. Where the payload ends in an error, `output` is left
/// as it was.
pub fn emit_payload(
    output: &mut Vec<u8>,
    magic: u8,
    private_key: &str,
    key_field: &[u8],
    payload: &[u8],
) -> (r: Result<(), DecodeError>)
    ensures
        match spec_payload_output(magic, private_key@, key_field@, payload@) {
            Ok(bytes) => r is Ok && final(output)@ == old(output)@ + bytes,
            Err(e) => r == Err::<(), DecodeError>(e) && final(output)@ == old(output)@,
        },
{
    match treatment(magic, !private_key.is_empty()) {
        Treatment::Raw => {
            output.extend_from_slice(payload);
            Ok(())
        },
        Treatment::WrongScript => {
            push_wrong_script_line(output);
            Ok(())
        },
        Treatment::Zlib => zlib_decompress(output, payload),
        Treatment::ZlibChunked => match join_chunks(payload) {
            Ok(joined) => zlib_decompress(output, joined.as_slice()),
            Err(e) => Err(e),
        },
        Treatment::Zstd => zstd_decompress(output, payload),
        Treatment::DecryptZlib => match plaintext(private_key, key_field, payload) {
            Ok(plain) => zlib_decompress(output, plain.as_slice()),
            Err(e) => Err(e),
        },
        Treatment::DecryptZstd => match plaintext(private_key, key_field, payload) {
            Ok(plain) => zstd_decompress(output, plain.as_slice()),
            Err(e) => Err(e),
        },
    }
}

/// A frame without payload writes nothing, unless it is an encrypted frame:
/// read without a key that one gives the notice, and read with a key it asks
/// for the key agreement first.
pub proof fn lemma_empty_payload_writes_nothing(magic: u8, key: Seq<char>, key_field: Seq<u8>)
    ensures
        match spec_treatment(magic, key.len() > 0) {
            Treatment::WrongScript => true,
            Treatment::DecryptZlib | Treatment::DecryptZstd => spec_plaintext(
                key,
                key_field,
                Seq::<u8>::empty(),
            ) is Ok ==> spec_payload_output(magic, key, key_field, Seq::<u8>::empty()) == Ok::<
                Seq<u8>,
                DecodeError,
            >(Seq::<u8>::empty()),
            _ => spec_payload_output(magic, key, key_field, Seq::<u8>::empty()) == Ok::<
                Seq<u8>,
                DecodeError,
            >(Seq::<u8>::empty()),
        },
{
    let empty = Seq::<u8>::empty();
    assert(spec_join_chunks(empty) == Some(empty));
    match spec_plaintext(key, key_field, empty) {
        Ok(plain) => {
            assert(plain.len() == 0);
            assert(plain =~= empty);
        },
        Err(_) => {},
    }
}

} // verus!
