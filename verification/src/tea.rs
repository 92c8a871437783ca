use vstd::prelude::*;
use vstd::slice::slice_subrange;
use crate::integer::{be4, le4, read_integer};

verus! {

/// The TEA key schedule constant.
pub const DELTA: u32 = 0x9e3779b9;

/// Number of iterations of the paired-round body.
pub const ROUNDS: u32 = 16;

/// The TEA mixing function of one half round.
pub open spec fn mix(v: u32, sum: u32, ka: u32, kb: u32) -> u32 {
    ((v << 4).wrapping_add(ka)) ^ (v.wrapping_add(sum)) ^ ((v >> 5).wrapping_add(kb))
}

/// Running sum after `n` iterations of encryption: `n` times `DELTA`, with
/// 32-bit wrap-around.
pub open spec fn round_sum(n: nat) -> u32
    decreases n,
{
    if n == 0 {
        0
    } else {
        round_sum((n - 1) as nat).wrapping_add(DELTA)
    }
}

/// One iteration of encryption with running sum `sum`.
pub open spec fn encrypt_round(v: (u32, u32), k: Seq<u32>, sum: u32) -> (u32, u32) {
    let v0 = v.0.wrapping_add(mix(v.1, sum, k[0], k[1]));
    let v1 = v.1.wrapping_add(mix(v0, sum, k[2], k[3]));
    (v0, v1)
}

/// One iteration of decryption with running sum `sum`.
pub open spec fn decrypt_round(v: (u32, u32), k: Seq<u32>, sum: u32) -> (u32, u32) {
    let v1 = v.1.wrapping_sub(mix(v.0, sum, k[2], k[3]));
    let v0 = v.0.wrapping_sub(mix(v1, sum, k[0], k[1]));
    (v0, v1)
}

/// The first `n` iterations of encryption of the block `v` under key `k`.
pub open spec fn encrypt_rounds(v: (u32, u32), k: Seq<u32>, n: nat) -> (u32, u32)
    decreases n,
{
    if n == 0 {
        v
    } else {
        encrypt_round(encrypt_rounds(v, k, (n - 1) as nat), k, round_sum(n))
    }
}

/// Decryption that undoes iterations `n`, `n - 1`, ..., 1 of encryption.
pub open spec fn decrypt_rounds(v: (u32, u32), k: Seq<u32>, n: nat) -> (u32, u32)
    decreases n,
{
    if n == 0 {
        v
    } else {
        decrypt_rounds(decrypt_round(v, k, round_sum(n)), k, (n - 1) as nat)
    }
}

/// TEA encryption of the 64-bit block `v` under the 128-bit key `k`.
pub open spec fn spec_tea_encrypt(v: (u32, u32), k: Seq<u32>) -> (u32, u32) {
    encrypt_rounds(v, k, ROUNDS as nat)
}

/// TEA decryption of the 64-bit block `v` under the 128-bit key `k`.
pub open spec fn spec_tea_decrypt(v: (u32, u32), k: Seq<u32>) -> (u32, u32) {
    decrypt_rounds(v, k, ROUNDS as nat)
}

/// One iteration of decryption undoes one iteration of encryption made with
/// the same key and running sum.
pub proof fn lemma_round_inverse(v: (u32, u32), k: Seq<u32>, sum: u32)
    ensures
        decrypt_round(encrypt_round(v, k, sum), k, sum) == v,
{
}

/// Decrypting `n` iterations undoes encrypting `n` iterations.
pub proof fn lemma_rounds_inverse(v: (u32, u32), k: Seq<u32>, n: nat)
    ensures
        decrypt_rounds(encrypt_rounds(v, k, n), k, n) == v,
    decreases n,
{
    if n > 0 {
        let inner = encrypt_rounds(v, k, (n - 1) as nat);
        lemma_round_inverse(inner, k, round_sum(n));
        lemma_rounds_inverse(v, k, (n - 1) as nat);
    }
}

/// Encrypting a block and then decrypting it with the same key yields the
/// block again.
pub proof fn lemma_decrypt_inverts_encrypt(v: (u32, u32), k: Seq<u32>)
    ensures
        spec_tea_decrypt(spec_tea_encrypt(v, k), k) == v,
{
    lemma_rounds_inverse(v, k, ROUNDS as nat);
}

/// The sum that decryption starts from is `DELTA` shifted left by four.
pub proof fn lemma_initial_sum()
    ensures
        round_sum(16) == DELTA << 4,
{
    reveal_with_fuel(round_sum, 17);
    assert(0x9e3779b9u32 << 4 == 0xe3779b90u32) by (bit_vector);
}

fn mix_exec(v: u32, sum: u32, ka: u32, kb: u32) -> (r: u32)
    ensures
        r == mix(v, sum, ka, kb),
{
    ((v << 4).wrapping_add(ka)) ^ (v.wrapping_add(sum)) ^ ((v >> 5).wrapping_add(kb))
}

/// Decrypts the block held in `v[0]` and `v[1]` in place under the key
/// `k[0..4]`.
pub fn tea_decrypt(v: &mut [u32], k: &mut [u32])
    requires
        old(v)@.len() >= 2,
        old(k)@.len() >= 4,
    ensures
        final(k)@ == old(k)@,
        final(v)@ == old(v)@.update(
            0,
            spec_tea_decrypt((old(v)@[0], old(v)@[1]), old(k)@).0,
        ).update(1, spec_tea_decrypt((old(v)@[0], old(v)@[1]), old(k)@).1),
{
    let mut v0: u32 = v[0];
    let mut v1: u32 = v[1];
    let mut sum: u32 = DELTA << 4;
    let k0: u32 = k[0];
    let k1: u32 = k[1];
    let k2: u32 = k[2];
    let k3: u32 = k[3];
    proof {
        lemma_initial_sum();
    }
    let mut i: u32 = 0;
    while i < ROUNDS
        invariant
            i <= ROUNDS,
            k@ == old(k)@,
            k0 == k@[0] && k1 == k@[1] && k2 == k@[2] && k3 == k@[3],
            sum == round_sum((ROUNDS - i) as nat),
            decrypt_rounds((v0, v1), k@, (ROUNDS - i) as nat) == spec_tea_decrypt(
                (old(v)@[0], old(v)@[1]),
                old(k)@,
            ),
        decreases ROUNDS - i,
    {
        v1 = v1.wrapping_sub(mix_exec(v0, sum, k2, k3));
        v0 = v0.wrapping_sub(mix_exec(v1, sum, k0, k1));
        sum = sum.wrapping_sub(DELTA);
        i = i + 1;
    }
    v[0] = v0;
    v[1] = v1;
    assert(final(v)@ =~= old(v)@.update(0, v0).update(1, v1));
}

/// Encrypts the block held in `v[0]` and `v[1]` in place under the key
/// `k[0..4]`: the operation that `tea_decrypt` undoes.
pub fn tea_encrypt(v: &mut [u32], k: &mut [u32])
    requires
        old(v)@.len() >= 2,
        old(k)@.len() >= 4,
    ensures
        final(k)@ == old(k)@,
        final(v)@ == old(v)@.update(
            0,
            spec_tea_encrypt((old(v)@[0], old(v)@[1]), old(k)@).0,
        ).update(1, spec_tea_encrypt((old(v)@[0], old(v)@[1]), old(k)@).1),
{
    let mut v0: u32 = v[0];
    let mut v1: u32 = v[1];
    let mut sum: u32 = 0;
    let k0: u32 = k[0];
    let k1: u32 = k[1];
    let k2: u32 = k[2];
    let k3: u32 = k[3];
    let mut i: u32 = 0;
    while i < ROUNDS
        invariant
            i <= ROUNDS,
            k@ == old(k)@,
            k0 == k@[0] && k1 == k@[1] && k2 == k@[2] && k3 == k@[3],
            sum == round_sum(i as nat),
            (v0, v1) == encrypt_rounds((old(v)@[0], old(v)@[1]), old(k)@, i as nat),
        decreases ROUNDS - i,
    {
        sum = sum.wrapping_add(DELTA);
        v0 = v0.wrapping_add(mix_exec(v1, sum, k0, k1));
        v1 = v1.wrapping_add(mix_exec(v0, sum, k2, k3));
        i = i + 1;
    }
    v[0] = v0;
    v[1] = v1;
    assert(final(v)@ =~= old(v)@.update(0, v0).update(1, v1));
}

/// The four bytes of `x`, most significant byte first.
pub open spec fn be_bytes(x: u32) -> Seq<u8> {
    seq![
        (x / 16777216) as u8,
        ((x / 65536) % 256) as u8,
        ((x / 256) % 256) as u8,
        (x % 256) as u8,
    ]
}

/// The TEA key that a shared secret gives: its first sixteen bytes read as
/// four little-endian words.
pub open spec fn spec_tea_key(secret: Seq<u8>) -> Seq<u32> {
    seq![
        le4(secret.subrange(0, 4)) as u32,
        le4(secret.subrange(4, 8)) as u32,
        le4(secret.subrange(8, 12)) as u32,
        le4(secret.subrange(12, 16)) as u32,
    ]
}

/// Plaintext of one eight-byte block: its two halves are read as
/// little-endian words, decrypted, and written back most significant byte
/// first.
pub open spec fn decrypt_block(block: Seq<u8>, key: Seq<u32>) -> Seq<u8> {
    let d = spec_tea_decrypt(
        (le4(block.subrange(0, 4)) as u32, le4(block.subrange(4, 8)) as u32),
        key,
    );
    be_bytes(d.0) + be_bytes(d.1)
}

/// Byte `i` of a payload after decryption: a byte of a whole block is taken
/// from the plaintext of that block, a byte of the trailing partial block is
/// kept.
pub open spec fn decrypted_byte(buf: Seq<u8>, key: Seq<u32>, i: int) -> u8 {
    if i / 8 < buf.len() / 8 {
        decrypt_block(buf.subrange(8 * (i / 8), 8 * (i / 8) + 8), key)[i % 8]
    } else {
        buf[i]
    }
}

/// The payload `buf` after decryption of its `buf.len() / 8` whole blocks.
pub open spec fn spec_decrypt_payload(buf: Seq<u8>, key: Seq<u32>) -> Seq<u8> {
    Seq::new(buf.len(), |i: int| decrypted_byte(buf, key, i))
}

/// Derives the TEA key from a shared secret of at least sixteen bytes.
pub fn tea_key(secret: &[u8]) -> (key: Vec<u32>)
    requires
        secret@.len() >= 16,
    ensures
        key@ == spec_tea_key(secret@),
{
    let mut key: Vec<u32> = Vec::with_capacity(4);
    let mut i: usize = 0;
    while i < 4
        invariant
            i <= 4,
            secret@.len() >= 16,
            key@.len() == i,
            forall|j: int|
                0 <= j < i ==> key@[j] == le4(secret@.subrange(4 * j, 4 * j + 4)) as u32,
        decreases 4 - i,
    {
        let word = read_integer::<u32>(slice_subrange(secret, i * 4, i * 4 + 4));
        assert(secret@.subrange(4 * i, 4 * i + 4).subrange(0, 4) =~= secret@.subrange(
            4 * i,
            4 * i + 4,
        ));
        key.push(word);
        i = i + 1;
    }
    assert(key@ =~= spec_tea_key(secret@));
    key
}

fn put_be(content: &mut Vec<u8>, at: usize, x: u32)
    requires
        at + 4 <= old(content)@.len(),
    ensures
        final(content)@.len() == old(content)@.len(),
        forall|j: int|
            0 <= j < old(content)@.len() ==> final(content)@[j] == if at <= j < at + 4 {
                be_bytes(x)[j - at]
            } else {
                old(content)@[j]
            },
{
    let n: usize = content.len();
    content[at] = (x / 16777216) as u8;
    content[at + 1] = ((x / 65536) % 256) as u8;
    content[at + 2] = ((x / 256) % 256) as u8;
    content[at + 3] = (x % 256) as u8;
}

/// Decrypts `content` in place, block by block. A trailing partial block is
/// left as it is.
pub fn decrypt_payload(content: &mut Vec<u8>, key: &mut [u32])
    requires
        old(key)@.len() >= 4,
    ensures
        final(key)@ == old(key)@,
        final(content)@ == spec_decrypt_payload(old(content)@, old(key)@),
        final(content)@.len() == old(content)@.len(),
        forall|j: int|
            8 * (old(content)@.len() / 8) <= j < old(content)@.len() ==> final(content)@[j] == old(
                content,
            )@[j],
{
    let n: usize = content.len();
    let blocks: usize = n / 8;
    let mut i: usize = 0;
    while i < blocks
        invariant
            i <= blocks,
            n == old(content)@.len(),
            blocks == n / 8,
            key@ == old(key)@,
            key@.len() >= 4,
            content@.len() == old(content)@.len(),
            forall|j: int|
                0 <= j < content@.len() ==> content@[j] == if j / 8 < i {
                    decrypted_byte(old(content)@, key@, j)
                } else {
                    old(content)@[j]
                },
        decreases blocks - i,
    {
        let start: usize = i * 8;
        let ghost before = content@;
        let ghost block = old(content)@.subrange(start as int, start + 8);
        let t1 = read_integer::<u32>(slice_subrange(content.as_slice(), start, start + 4));
        let t2 = read_integer::<u32>(slice_subrange(content.as_slice(), start + 4, start + 8));
        assert(content@.subrange(start as int, start + 4).subrange(0, 4) =~= block.subrange(0, 4));
        assert(content@.subrange(start + 4, start + 8).subrange(0, 4) =~= block.subrange(4, 8));
        let mut tmp: Vec<u32> = Vec::with_capacity(2);
        tmp.push(t1);
        tmp.push(t2);
        tea_decrypt(tmp.as_mut_slice(), key);
        let d0: u32 = tmp[0];
        let d1: u32 = tmp[1];
        put_be(content, start, d0);
        put_be(content, start + 4, d1);
        assert forall|j: int| 0 <= j < content@.len() implies content@[j] == if j / 8 < i + 1 {
            decrypted_byte(old(content)@, key@, j)
        } else {
            old(content)@[j]
        } by {
            if start <= j < start + 8 {
                assert(j / 8 == i);
                assert(8 * (j / 8) == start);
                assert(j % 8 == j - start);
                assert(decrypt_block(block, key@) == be_bytes(d0) + be_bytes(d1));
            } else {
                assert(content@[j] == before[j]);
            }
        }
        i = i + 1;
    }
    assert(content@ =~= spec_decrypt_payload(old(content)@, old(key)@));
}

/// The four bytes of `x`, least significant byte first.
pub open spec fn le_bytes(x: u32) -> Seq<u8> {
    seq![
        (x % 256) as u8,
        ((x / 256) % 256) as u8,
        ((x / 65536) % 256) as u8,
        (x / 16777216) as u8,
    ]
}

/// Ciphertext of one eight-byte block as the writer of an archive makes it:
/// the two halves are read as big-endian words, encrypted, and written least
/// significant byte first.
pub open spec fn encrypt_block(block: Seq<u8>, key: Seq<u32>) -> Seq<u8> {
    let e = spec_tea_encrypt(
        (be4(block.subrange(0, 4)) as u32, be4(block.subrange(4, 8)) as u32),
        key,
    );
    le_bytes(e.0) + le_bytes(e.1)
}

/// Byte `i` of a payload after encryption of its whole blocks.
pub open spec fn encrypted_byte(buf: Seq<u8>, key: Seq<u32>, i: int) -> u8 {
    if i / 8 < buf.len() / 8 {
        encrypt_block(buf.subrange(8 * (i / 8), 8 * (i / 8) + 8), key)[i % 8]
    } else {
        buf[i]
    }
}

/// The payload `buf` after encryption of its `buf.len() / 8` whole blocks.
pub open spec fn spec_encrypt_payload(buf: Seq<u8>, key: Seq<u32>) -> Seq<u8> {
    Seq::new(buf.len(), |i: int| encrypted_byte(buf, key, i))
}

/// Reading the little-endian bytes of a word gives the word, and writing the
/// big-endian bytes of a word read big-endian gives the bytes.
pub proof fn lemma_word_bytes(x: u32, bytes: Seq<u8>)
    requires
        bytes.len() == 4,
    ensures
        le4(le_bytes(x)) == x,
        be_bytes(be4(bytes) as u32) == bytes,
{
    assert(le_bytes(x).subrange(2, 4) =~= seq![((x / 65536) % 256) as u8, (x / 16777216) as u8]);
    let hi = bytes.subrange(2, 4);
    assert(hi[0] == bytes[2] && hi[1] == bytes[3]);
    assert(be_bytes(be4(bytes) as u32) =~= bytes);
}

/// Decrypting the ciphertext of a block gives the block.
pub proof fn lemma_block_round_trip(block: Seq<u8>, key: Seq<u32>)
    requires
        block.len() == 8,
    ensures
        encrypt_block(block, key).len() == 8,
        decrypt_block(encrypt_block(block, key), key) == block,
{
    let left = block.subrange(0, 4);
    let right = block.subrange(4, 8);
    let p = (be4(left) as u32, be4(right) as u32);
    let e = spec_tea_encrypt(p, key);
    let c = encrypt_block(block, key);
    assert(c.subrange(0, 4) =~= le_bytes(e.0));
    assert(c.subrange(4, 8) =~= le_bytes(e.1));
    lemma_word_bytes(e.0, left);
    lemma_word_bytes(e.1, right);
    lemma_decrypt_inverts_encrypt(p, key);
    assert(be_bytes(p.0) + be_bytes(p.1) =~= block);
}

/// The decoder undoes the writer: decrypting an encrypted payload gives the
/// payload, whatever its length.
pub proof fn lemma_payload_round_trip(buf: Seq<u8>, key: Seq<u32>)
    ensures
        spec_decrypt_payload(spec_encrypt_payload(buf, key), key) == buf,
{
    let enc = spec_encrypt_payload(buf, key);
    assert forall|i: int| 0 <= i < buf.len() implies decrypted_byte(enc, key, i) == buf[i] by {
        if i / 8 < buf.len() / 8 {
            let start = 8 * (i / 8);
            let block = buf.subrange(start, start + 8);
            lemma_block_round_trip(block, key);
            assert forall|j: int| 0 <= j < 8 implies enc.subrange(start, start + 8)[j]
                == encrypt_block(block, key)[j] by {
                assert((start + j) / 8 == i / 8);
                assert((start + j) % 8 == j);
            }
            assert(enc.subrange(start, start + 8) =~= encrypt_block(block, key));
        }
    }
    assert(spec_decrypt_payload(enc, key) =~= buf);
}

} // verus!
