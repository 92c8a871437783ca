use vstd::prelude::*;
use vstd::slice::slice_subrange;
use k256::elliptic_curve::sec1::{FromEncodedPoint, ToEncodedPoint};
use crate::hex::{encode_hex, spec_encode_hex};

verus! {

/// Length in bytes of a raw public key: the two coordinates of a point.
pub const PUBLIC_KEY_LEN: usize = 64;

/// Length in bytes of a private key, and of a shared secret.
pub const PRIVATE_KEY_LEN: usize = 32;

/// The secret that elliptic-curve Diffie-Hellman over secp256k1 derives from
/// a raw 64-byte public key and a 32-byte private key, or `None` where one of
/// them is no key.
pub uninterp spec fn ecdh_secret(public_key: Seq<u8>, private_key: Seq<u8>) -> Option<Seq<u8>>;

/// The SEC1 uncompressed encoding of the public key that belongs to a 32-byte
/// private key, or `None` where the bytes are no private key.
pub uninterp spec fn sec1_public_key(private_key: Seq<u8>) -> Option<Seq<u8>>;

/// Parses both keys with `k256` and calls `k256::ecdh::diffie_hellman`.
/// Nothing is proved of the curve arithmetic: the contract gives the result
/// the name `ecdh_secret`, `None` standing for a key that `k256` rejects, and
/// takes from `k256` that a shared secret has 32 bytes.
#[verifier::external_body]
fn diffie_hellman(public_key: &[u8], private_key: &[u8]) -> (r: Option<Vec<u8>>)
    requires
        public_key@.len() == PUBLIC_KEY_LEN,
        private_key@.len() == PRIVATE_KEY_LEN,
    ensures
        r.is_some() == ecdh_secret(public_key@, private_key@).is_some(),
        r.is_some() ==> r.unwrap()@ == ecdh_secret(public_key@, private_key@).unwrap()
            && r.unwrap()@.len() == PRIVATE_KEY_LEN,
{
    let point = k256::EncodedPoint::from_untagged_bytes(public_key.into());
    let public = Option::<k256::PublicKey>::from(k256::PublicKey::from_encoded_point(&point))?;
    let secret = k256::SecretKey::from_slice(private_key).ok()?;
    let shared = k256::ecdh::diffie_hellman(secret.to_nonzero_scalar(), public.as_affine());
    Some(shared.raw_secret_bytes().to_vec())
}

/// Parses the private key with `k256::SecretKey::from_slice` and encodes its
/// public key with `to_encoded_point(false)`. The contract gives the result
/// the name `sec1_public_key` and takes from `sec1` that an uncompressed
/// point has 65 bytes, a tag and two coordinates.
#[verifier::external_body]
fn public_key_of(private_key: &[u8]) -> (r: Option<Vec<u8>>)
    requires
        private_key@.len() == PRIVATE_KEY_LEN,
    ensures
        r.is_some() == sec1_public_key(private_key@).is_some(),
        r.is_some() ==> r.unwrap()@ == sec1_public_key(private_key@).unwrap() && r.unwrap()@.len()
            == PUBLIC_KEY_LEN + 1,
{
    let secret = k256::SecretKey::from_slice(private_key).ok()?;
    Some(secret.public_key().to_encoded_point(false).as_bytes().to_vec())
}

/// Draws a private key with `k256::SecretKey::random` from the operating
/// system's generator. The key differs from call to call: the contract says
/// only that it has 32 bytes.
#[verifier::external_body]
fn random_private_key() -> (r: Vec<u8>)
    ensures
        r@.len() == PRIVATE_KEY_LEN,
{
    k256::SecretKey::random(&mut rand_core::OsRng).to_bytes().to_vec()
}

/// The shared secret of the keys at the head of the two buffers, or `None`
/// where a buffer is too short or holds no key.
pub open spec fn spec_shared_secret(public_key: Seq<u8>, private_key: Seq<u8>) -> Option<Seq<u8>> {
    if public_key.len() >= PUBLIC_KEY_LEN && private_key.len() >= PRIVATE_KEY_LEN {
        ecdh_secret(
            public_key.subrange(0, PUBLIC_KEY_LEN as int),
            private_key.subrange(0, PRIVATE_KEY_LEN as int),
        )
    } else {
        None
    }
}

/// Derives the shared secret of a raw public key and a private key over
/// secp256k1 and writes it to the head of `ecdh_buf`. Returns `None`, and
/// leaves `ecdh_buf` as it is, where a buffer is too short or a key is
/// rejected.
pub fn ucc_shared_secret_whith_secp2561k1(
    pub_key_buf: &mut [u8],
    priv_key_buf: &mut [u8],
    ecdh_buf: &mut [u8],
) -> (r: Option<()>)
    ensures
        final(pub_key_buf)@ == old(pub_key_buf)@,
        final(priv_key_buf)@ == old(priv_key_buf)@,
        final(ecdh_buf)@.len() == old(ecdh_buf)@.len(),
        r.is_some() == (old(ecdh_buf)@.len() >= PRIVATE_KEY_LEN && spec_shared_secret(
            old(pub_key_buf)@,
            old(priv_key_buf)@,
        ).is_some()),
        r.is_some() ==> final(ecdh_buf)@ == spec_shared_secret(
            old(pub_key_buf)@,
            old(priv_key_buf)@,
        ).unwrap() + old(ecdh_buf)@.subrange(PRIVATE_KEY_LEN as int, old(ecdh_buf)@.len() as int),
        r.is_none() ==> final(ecdh_buf)@ == old(ecdh_buf)@,
{
    if pub_key_buf.len() < PUBLIC_KEY_LEN || priv_key_buf.len() < PRIVATE_KEY_LEN || ecdh_buf.len()
        < PRIVATE_KEY_LEN {
        return None;
    }
    let secret = match diffie_hellman(
        slice_subrange(pub_key_buf, 0, PUBLIC_KEY_LEN),
        slice_subrange(priv_key_buf, 0, PRIVATE_KEY_LEN),
    ) {
        Some(secret) => secret,
        None => {
            return None;
        },
    };
    let mut i: usize = 0;
    while i < PRIVATE_KEY_LEN
        invariant
            i <= PRIVATE_KEY_LEN,
            secret@.len() == PRIVATE_KEY_LEN,
            ecdh_buf@.len() == old(ecdh_buf)@.len(),
            ecdh_buf@.len() >= PRIVATE_KEY_LEN,
            forall|j: int|
                0 <= j < ecdh_buf@.len() ==> ecdh_buf@[j] == if j < i {
                    secret@[j]
                } else {
                    old(ecdh_buf)@[j]
                },
        decreases PRIVATE_KEY_LEN - i,
    {
        ecdh_buf[i] = secret[i];
        i = i + 1;
    }
    assert(ecdh_buf@ =~= secret@ + old(ecdh_buf)@.subrange(
        PRIVATE_KEY_LEN as int,
        old(ecdh_buf)@.len() as int,
    ));
    Some(())
}

/// A key pair, each key as a lower-case hex string.
pub struct UEcckeyPair {
    pub private_key: String,
    pub public_key: String,
}

/// The raw public key that a SEC1 uncompressed encoding holds: what follows
/// the tag byte.
pub open spec fn raw_public_key(sec1: Seq<u8>) -> Seq<u8> {
    if sec1.len() == 0 {
        sec1
    } else {
        sec1.subrange(1, sec1.len() as int)
    }
}

/// The hex strings of a private key and of the raw public key that the SEC1
/// encoding `sec1` holds.
pub open spec fn spec_key_strings(private_key: Seq<u8>, sec1: Seq<u8>) -> (Seq<char>, Seq<char>) {
    (spec_encode_hex(private_key), spec_encode_hex(raw_public_key(sec1)))
}

/// Hex strings of a private key and of the raw public key that the SEC1
/// encoding `sec1` holds.
pub fn encode_key_pair(private_key: &[u8], sec1: &[u8]) -> (r: (String, String))
    ensures
        (r.0@, r.1@) == spec_key_strings(private_key@, sec1@),
        r.0@.len() == 2 * private_key@.len(),
        r.1@.len() == 2 * raw_public_key(sec1@).len(),
{
    let raw = if sec1.len() == 0 {
        sec1
    } else {
        slice_subrange(sec1, 1, sec1.len())
    };
    (encode_hex(private_key), encode_hex(raw))
}

/// The SEC1 encoding of the public key of `private_key`, or `None` where the
/// bytes are no private key of 32 bytes.
pub open spec fn spec_public_key(private_key: Seq<u8>) -> Option<Seq<u8>> {
    if private_key.len() == PRIVATE_KEY_LEN {
        sec1_public_key(private_key)
    } else {
        None
    }
}

/// Hex strings of the private key and of its public key, or `None` where the
/// bytes are no private key.
pub fn key_strings(private_key: &[u8]) -> (r: Option<(String, String)>)
    ensures
        r.is_some() == spec_public_key(private_key@).is_some(),
        r.is_some() ==> (r.unwrap().0@, r.unwrap().1@) == spec_key_strings(
            private_key@,
            spec_public_key(private_key@).unwrap(),
        ),
        r.is_some() ==> r.unwrap().0@.len() == 2 * PRIVATE_KEY_LEN && r.unwrap().1@.len() == 2
            * PUBLIC_KEY_LEN,
{
    if private_key.len() != PRIVATE_KEY_LEN {
        return None;
    }
    match public_key_of(private_key) {
        None => None,
        Some(sec1) => Some(encode_key_pair(private_key, sec1.as_slice())),
    }
}

/// The two strings are the hex forms of a private key and of the public key
/// that belongs to it.
pub open spec fn is_key_pair(private_hex: Seq<char>, public_hex: Seq<char>) -> bool {
    exists|private_key: Seq<u8>|
        spec_public_key(private_key).is_some() && (private_hex, public_hex)
            == #[trigger] spec_key_strings(private_key, spec_public_key(private_key).unwrap())
}

/// Generates a secp256k1 key pair and returns the private and the public key
/// as hex strings of 64 and 128 digits.
pub fn uecc_mkae_key_with_secp2561k1() -> (r: Option<(String, String)>)
    ensures
        r.is_some() ==> is_key_pair(r.unwrap().0@, r.unwrap().1@),
        r.is_some() ==> r.unwrap().0@.len() == 2 * PRIVATE_KEY_LEN && r.unwrap().1@.len() == 2
            * PUBLIC_KEY_LEN,
{
    let private_key = random_private_key();
    key_strings(private_key.as_slice())
}

/// Generates a secp256k1 key pair.
pub fn gen_secp2561k1_key_pair() -> (r: Option<UEcckeyPair>)
    ensures
        r.is_some() ==> is_key_pair(r.unwrap().private_key@, r.unwrap().public_key@),
        r.is_some() ==> r.unwrap().private_key@.len() == 2 * PRIVATE_KEY_LEN
            && r.unwrap().public_key@.len() == 2 * PUBLIC_KEY_LEN,
{
    match uecc_mkae_key_with_secp2561k1() {
        None => None,
        Some((private_key, public_key)) => Some(UEcckeyPair { private_key, public_key }),
    }
}

/// Generates a secp256k1 key pair.
pub fn gen_key_pair() -> (r: Option<UEcckeyPair>)
    ensures
        r.is_some() ==> is_key_pair(r.unwrap().private_key@, r.unwrap().public_key@),
        r.is_some() ==> r.unwrap().private_key@.len() == 2 * PRIVATE_KEY_LEN
            && r.unwrap().public_key@.len() == 2 * PUBLIC_KEY_LEN,
{
    gen_secp2561k1_key_pair()
}

} // verus!
