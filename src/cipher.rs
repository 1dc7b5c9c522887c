//! The block-cipher layer: key stretching over SHA-256, PKCS#7 padding and
//! AES-256 in cipher-block-chaining mode.

use aes::cipher::generic_array::GenericArray;
use aes::cipher::{BlockDecrypt, BlockEncrypt, KeyInit};
use hmac::{Hmac, Mac};
use sha2::Digest;
use vstd::prelude::*;

verus! {

/// Width in bytes of a cipher block, of a salt and of an initialization value.
pub const BLOCK_LEN: usize = 16;

/// Width in bytes of a symmetric key.
pub const KEY_LEN: usize = 32;

/// How many times the first salted digest is hashed again to make a key.
pub const KDF_ROUNDS: u32 = 4096;

/// What SHA-256 gives for a byte string.
pub uninterp spec fn sha256_of(data: Seq<u8>) -> Seq<u8>;

/// What AES-256 gives when it enciphers one block under a key.
pub uninterp spec fn aes256_encrypt_of(key: Seq<u8>, block: Seq<u8>) -> Seq<u8>;

/// What AES-256 gives when it deciphers one block under a key.
pub uninterp spec fn aes256_decrypt_of(key: Seq<u8>, block: Seq<u8>) -> Seq<u8>;

/// Width in bytes of an authentication tag.
pub const TAG_LEN: usize = 32;

/// What HMAC-SHA256 gives for a key and a message.
pub uninterp spec fn hmac_sha256_of(key: Seq<u8>, data: Seq<u8>) -> Seq<u8>;

/// Relies on `hmac::Hmac<Sha256>`: `Mac::new_from_slice`, which takes a key
/// of any length, then `update` and `finalize`: the 32-byte HMAC-SHA256 tag.
#[verifier::external_body]
fn hmac_sha256(key: &[u8], data: &[u8]) -> (r: Option<Vec<u8>>)
    ensures
        r is Some,
        r matches Some(t) ==> t@ == hmac_sha256_of(key@, data@) && t@.len() == TAG_LEN,
{
    match <Hmac<sha2::Sha256> as Mac>::new_from_slice(key) {
        Ok(mut m) => {
            m.update(data);
            Some(m.finalize().into_bytes().to_vec())
        },
        Err(_) => None,
    }
}

/// Relies on `sha2::Sha256::digest`: the 32-byte SHA-256 digest of `data`.
#[verifier::external_body]
fn sha256(data: &[u8]) -> (r: Vec<u8>)
    ensures
        r@ == sha256_of(data@),
        r@.len() == KEY_LEN,
{
    sha2::Sha256::digest(data).to_vec()
}

/// Relies on `aes::Aes256` and `BlockEncrypt::encrypt_block`: one block
/// enciphered under a 32-byte key, which `decrypt_block` turns back.
#[verifier::external_body]
fn aes_encrypt_block(key: &[u8], block: &[u8]) -> (r: Vec<u8>)
    requires
        key@.len() == KEY_LEN,
        block@.len() == BLOCK_LEN,
    ensures
        r@ == aes256_encrypt_of(key@, block@),
        r@.len() == BLOCK_LEN,
        aes256_decrypt_of(key@, r@) == block@,
{
    let cipher = aes::Aes256::new(GenericArray::from_slice(key));
    let mut b = GenericArray::clone_from_slice(block);
    cipher.encrypt_block(&mut b);
    b.to_vec()
}

/// Relies on `aes::Aes256` and `BlockDecrypt::decrypt_block`: one block
/// deciphered under a 32-byte key.
#[verifier::external_body]
fn aes_decrypt_block(key: &[u8], block: &[u8]) -> (r: Vec<u8>)
    requires
        key@.len() == KEY_LEN,
        block@.len() == BLOCK_LEN,
    ensures
        r@ == aes256_decrypt_of(key@, block@),
        r@.len() == BLOCK_LEN,
{
    let cipher = aes::Aes256::new(GenericArray::from_slice(key));
    let mut b = GenericArray::clone_from_slice(block);
    cipher.decrypt_block(&mut b);
    b.to_vec()
}

/// `k` hashed `n` more times.
pub open spec fn rehashed(k: Seq<u8>, n: nat) -> Seq<u8>
    decreases n,
{
    if n == 0 {
        k
    } else {
        sha256_of(rehashed(k, (n - 1) as nat))
    }
}

/// The key for a password's bytes and a salt: the digest of the password
/// followed by the salt, hashed again `KDF_ROUNDS` times.
pub open spec fn derived_key(password: Seq<u8>, salt: Seq<u8>) -> Seq<u8> {
    rehashed(sha256_of(password + salt), KDF_ROUNDS as nat)
}

/// Stretches a password and a salt into a 32-byte key.
pub fn derive_key(password: &[u8], salt: &[u8]) -> (r: Vec<u8>)
    ensures
        r@ == derived_key(password@, salt@),
        r@.len() == KEY_LEN,
{
    let mut input: Vec<u8> = Vec::new();
    input.extend_from_slice(password);
    input.extend_from_slice(salt);
    assert(input@ =~= password@ + salt@);
    let first = sha256(input.as_slice());
    let mut key = first;
    assert(key@ == rehashed(sha256_of(password@ + salt@), 0));
    let mut i: u32 = 0;
    while i < KDF_ROUNDS
        invariant
            i <= KDF_ROUNDS,
            key@ == rehashed(sha256_of(password@ + salt@), i as nat),
            key@.len() == KEY_LEN,
        decreases KDF_ROUNDS - i,
    {
        key = sha256(key.as_slice());
        i = i + 1;
    }
    key
}

/// The key that tags are made under: the digest of the cipher key followed
/// by one byte of value 1, so that the two keys differ.
pub open spec fn mac_key_of(key: Seq<u8>) -> Seq<u8> {
    sha256_of(key + seq![1u8])
}

/// The authentication tag of a message under a cipher key.
pub open spec fn tag_of(key: Seq<u8>, data: Seq<u8>) -> Seq<u8> {
    hmac_sha256_of(mac_key_of(key), data)
}

/// Tags a message under a cipher key with HMAC-SHA256.
pub fn auth_tag(key: &[u8], data: &[u8]) -> (r: Vec<u8>)
    ensures
        r@ == tag_of(key@, data@),
        r@.len() == TAG_LEN,
{
    let mut input: Vec<u8> = Vec::new();
    input.extend_from_slice(key);
    input.push(1u8);
    assert(input@ =~= key@ + seq![1u8]);
    let mac_key = sha256(input.as_slice());
    match hmac_sha256(mac_key.as_slice(), data) {
        Some(t) => t,
        None => {
            assert(false);
            Vec::new()
        },
    }
}

/// Whether two byte strings are equal.
pub fn same_bytes(a: &[u8], b: &[u8]) -> (r: bool)
    ensures
        r == (a@ == b@),
{
    if a.len() != b.len() {
        return false;
    }
    let mut i: usize = 0;
    while i < a.len()
        invariant
            a@.len() == b@.len(),
            i <= a@.len(),
            forall|k: int| 0 <= k < i ==> a@[k] == b@[k],
        decreases a@.len() - i,
    {
        if a[i] != b[i] {
            return false;
        }
        i = i + 1;
    }
    assert(a@ =~= b@);
    true
}

/// The bytes followed by PKCS#7 padding: `n` bytes of value `n`, where `n`
/// (from 1 to 16) brings the length to a multiple of the block width.
pub open spec fn padded(b: Seq<u8>) -> Seq<u8> {
    let n = 16 - b.len() % 16;
    b + Seq::new(n as nat, |i: int| n as u8)
}

/// Appends PKCS#7 padding; a full block when the length is already a
/// multiple of the block width.
pub fn pad(data: &[u8]) -> (r: Vec<u8>)
    requires
        data@.len() <= usize::MAX - BLOCK_LEN,
    ensures
        r@ == padded(data@),
        r@.len() % 16 == 0,
        r@.len() >= 16,
{
    let n: usize = BLOCK_LEN - data.len() % BLOCK_LEN;
    let mut out: Vec<u8> = Vec::new();
    out.extend_from_slice(data);
    let mut i: usize = 0;
    while i < n
        invariant
            n == 16 - data@.len() % 16,
            1 <= n <= 16,
            i <= n,
            out@ == data@ + Seq::new(i as nat, |j: int| n as u8),
        decreases n - i,
    {
        out.push(n as u8);
        i = i + 1;
        assert(out@ =~= data@ + Seq::new(i as nat, |j: int| n as u8));
    }
    assert(out@ =~= padded(data@));
    out
}

/// Block `i` of a byte string.
pub open spec fn block_at(s: Seq<u8>, i: int) -> Seq<u8> {
    s.subrange(16 * i, 16 * i + 16)
}

/// Two blocks combined byte by byte with exclusive or.
pub open spec fn xor_blocks(a: Seq<u8>, b: Seq<u8>) -> Seq<u8> {
    Seq::new(16, |j: int| a[j] ^ b[j])
}

/// What block `i` is chained with: the initialization value for the first
/// block, the ciphertext block before it for the others.
pub open spec fn chain_at(iv: Seq<u8>, ct: Seq<u8>, i: int) -> Seq<u8> {
    if i == 0 {
        iv
    } else {
        block_at(ct, i - 1)
    }
}

/// `ct` is the chained encryption of `pt`: each block of `ct` enciphers the
/// block of `pt` combined with the block it is chained with.
pub open spec fn is_cbc_encryption(key: Seq<u8>, iv: Seq<u8>, pt: Seq<u8>, ct: Seq<u8>) -> bool {
    &&& ct.len() == pt.len()
    &&& pt.len() % 16 == 0
    &&& forall|i: int|
        0 <= i < pt.len() / 16 ==> #[trigger] block_at(ct, i) == aes256_encrypt_of(
            key,
            xor_blocks(block_at(pt, i), chain_at(iv, ct, i)),
        )
}

/// The chained decryption of `ct`: each block deciphered and combined with
/// the block it is chained with.
pub open spec fn cbc_plain(key: Seq<u8>, iv: Seq<u8>, ct: Seq<u8>) -> Seq<u8> {
    Seq::new(
        ct.len(),
        |j: int|
            aes256_decrypt_of(key, block_at(ct, j / 16))[j % 16] ^ chain_at(iv, ct, j / 16)[j % 16],
    )
}

proof fn lemma_xor_twice(a: u8, b: u8)
    ensures
        (a ^ b) ^ b == a,
{
    assert((a ^ b) ^ b == a) by (bit_vector);
}

/// Combines a block of `src`, from `start`, with `mask`.
fn xor_block_from(src: &[u8], start: usize, mask: &[u8]) -> (r: Vec<u8>)
    requires
        start + 16 <= src@.len(),
        start + 16 <= usize::MAX,
        mask@.len() == 16,
    ensures
        r@ == xor_blocks(src@.subrange(start as int, start + 16), mask@),
{
    let mut out: Vec<u8> = Vec::new();
    let mut j: usize = 0;
    while j < BLOCK_LEN
        invariant
            start + 16 <= src@.len(),
            start + 16 <= usize::MAX,
            mask@.len() == 16,
            j <= 16,
            out@.len() == j,
            forall|k: int| 0 <= k < j ==> out@[k] == src@[start + k] ^ mask@[k],
        decreases 16 - j,
    {
        out.push(src[start + j] ^ mask[j]);
        j = j + 1;
    }
    assert(out@ =~= xor_blocks(src@.subrange(start as int, start + 16), mask@));
    out
}

/// Appending a block keeps the blocks before it.
proof fn lemma_block_append(out: Seq<u8>, c: Seq<u8>, i: int)
    requires
        0 <= i,
        out.len() == 16 * i,
        c.len() == 16,
    ensures
        block_at(out + c, i) == c,
        forall|b: int| 0 <= b < i ==> #[trigger] block_at(out + c, b) == block_at(out, b),
{
    assert(block_at(out + c, i) =~= c);
    assert forall|b: int| 0 <= b < i implies #[trigger] block_at(out + c, b) == block_at(out, b) by {
        assert(block_at(out + c, b) =~= block_at(out, b));
    }
}

/// Whole blocks each of which deciphers to its plaintext block combined
/// with its chain decrypt to the plaintext.
proof fn lemma_cbc_inverts(key: Seq<u8>, iv: Seq<u8>, pt: Seq<u8>, ct: Seq<u8>)
    requires
        ct.len() == pt.len(),
        pt.len() % 16 == 0,
        iv.len() == 16,
        forall|b: int|
            0 <= b < pt.len() / 16 ==> aes256_decrypt_of(key, #[trigger] block_at(ct, b))
                == xor_blocks(block_at(pt, b), chain_at(iv, ct, b)),
    ensures
        cbc_plain(key, iv, ct) == pt,
{
    assert forall|j: int| 0 <= j < ct.len() implies #[trigger] cbc_plain(key, iv, ct)[j]
        == pt[j] by {
        let b = j / 16;
        let k = j % 16;
        assert(0 <= b < pt.len() / 16);
        assert(aes256_decrypt_of(key, block_at(ct, b)) == xor_blocks(
            block_at(pt, b),
            chain_at(iv, ct, b),
        ));
        lemma_xor_twice(block_at(pt, b)[k], chain_at(iv, ct, b)[k]);
        assert(16 * b + k == j);
    }
    assert(cbc_plain(key, iv, ct) =~= pt);
}

/// Encrypts whole blocks in chained mode; the result also deciphers back.
pub fn cbc_encrypt(key: &[u8], iv: &[u8], pt: &[u8]) -> (r: Vec<u8>)
    requires
        key@.len() == KEY_LEN,
        iv@.len() == BLOCK_LEN,
        pt@.len() % 16 == 0,
    ensures
        is_cbc_encryption(key@, iv@, pt@, r@),
        cbc_plain(key@, iv@, r@) == pt@,
{
    let total: usize = pt.len();
    let n: usize = total / BLOCK_LEN;
    let mut out: Vec<u8> = Vec::new();
    let mut prev: Vec<u8> = Vec::new();
    prev.extend_from_slice(iv);
    let mut i: usize = 0;
    while i < n
        invariant
            key@.len() == KEY_LEN,
            iv@.len() == 16,
            pt@.len() % 16 == 0,
            n == pt@.len() / 16,
            total == pt@.len(),
            i <= n,
            out@.len() == 16 * i,
            prev@ == chain_at(iv@, out@, i as int),
            forall|b: int|
                0 <= b < i ==> #[trigger] block_at(out@, b) == aes256_encrypt_of(
                    key@,
                    xor_blocks(block_at(pt@, b), chain_at(iv@, out@, b)),
                ) && aes256_decrypt_of(key@, block_at(out@, b)) == xor_blocks(
                    block_at(pt@, b),
                    chain_at(iv@, out@, b),
                ),
        decreases n - i,
    {
        assert(i * 16 + 16 <= total) by (nonlinear_arith)
            requires
                i < n,
                n == total / 16,
        ;
        let x = xor_block_from(pt, i * BLOCK_LEN, prev.as_slice());
        assert(pt@.subrange(16 * i, 16 * i + 16) == block_at(pt@, i as int));
        let c = aes_encrypt_block(key, x.as_slice());
        let ghost old_out = out@;
        out.extend_from_slice(c.as_slice());
        proof {
            lemma_block_append(old_out, c@, i as int);
            assert forall|b: int| 0 <= b <= i implies #[trigger] chain_at(iv@, out@, b)
                == chain_at(iv@, old_out, b) by {
                if b > 0 {
                    assert(block_at(out@, b - 1) == block_at(old_out, b - 1));
                }
            }
            assert(chain_at(iv@, out@, i + 1) == c@);
            assert forall|b: int| 0 <= b < i + 1 implies #[trigger] block_at(out@, b)
                == aes256_encrypt_of(key@, xor_blocks(block_at(pt@, b), chain_at(iv@, out@, b)))
                && aes256_decrypt_of(key@, block_at(out@, b)) == xor_blocks(
                block_at(pt@, b),
                chain_at(iv@, out@, b),
            ) by {
                if b < i {
                    assert(block_at(out@, b) == block_at(old_out, b));
                    assert(chain_at(iv@, out@, b) == chain_at(iv@, old_out, b));
                }
            }
        }
        prev = c;
        i = i + 1;
    }
    proof {
        assert(out@.len() == pt@.len()) by (nonlinear_arith)
            requires
                out@.len() == 16 * n,
                n == pt@.len() / 16,
                pt@.len() % 16 == 0,
        ;
        lemma_cbc_inverts(key@, iv@, pt@, out@);
    }
    out
}

/// Decrypts whole blocks in chained mode.
pub fn cbc_decrypt(key: &[u8], iv: &[u8], ct: &[u8]) -> (r: Vec<u8>)
    requires
        key@.len() == KEY_LEN,
        iv@.len() == BLOCK_LEN,
        ct@.len() % 16 == 0,
    ensures
        r@ == cbc_plain(key@, iv@, ct@),
{
    let total: usize = ct.len();
    let n: usize = total / BLOCK_LEN;
    let mut out: Vec<u8> = Vec::new();
    let mut i: usize = 0;
    while i < n
        invariant
            key@.len() == KEY_LEN,
            iv@.len() == 16,
            ct@.len() % 16 == 0,
            n == ct@.len() / 16,
            total == ct@.len(),
            i <= n,
            out@.len() == 16 * i,
            forall|j: int| 0 <= j < 16 * i ==> out@[j] == #[trigger] cbc_plain(key@, iv@, ct@)[j],
        decreases n - i,
    {
        assert(i * 16 + 16 <= total) by (nonlinear_arith)
            requires
                i < n,
                n == total / 16,
        ;
        let start: usize = i * BLOCK_LEN;
        let d = aes_decrypt_block(key, &ct[start..start + BLOCK_LEN]);
        assert(ct@.subrange(start as int, start + 16) =~= block_at(ct@, i as int));
        let chained: &[u8] = if i == 0 {
            iv
        } else {
            &ct[start - BLOCK_LEN..start]
        };
        assert(chained@ =~= chain_at(iv@, ct@, i as int));
        let x = xor_block_from(d.as_slice(), 0, chained);
        let ghost old_out = out@;
        out.extend_from_slice(x.as_slice());
        assert forall|j: int| 0 <= j < 16 * (i + 1) implies out@[j] == #[trigger] cbc_plain(
            key@,
            iv@,
            ct@,
        )[j] by {
            if j >= 16 * i {
                assert(j / 16 == i);
                assert(j % 16 == j - 16 * i);
            }
        }
        i = i + 1;
    }
    assert(out@ =~= cbc_plain(key@, iv@, ct@));
    out
}

} // verus!
