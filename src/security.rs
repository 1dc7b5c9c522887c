//! Password-based sealing of text, secure password generation and the
//! time-based second factor.
//!
//! A sealed blob is the hex text of `salt ‖ iv ‖ ciphertext ‖ tag`, where
//! the ciphertext is the PKCS#7-padded UTF-8 of the text, encrypted with
//! AES-256 in chained mode under a key stretched from the password and the
//! salt, and the tag is an HMAC-SHA256 of everything before it. Opening
//! checks the tag first, so a wrong password or a changed byte is refused
//! before any padding or text is looked at.

use crate::cipher::{
    auth_tag, cbc_decrypt, cbc_encrypt, cbc_plain, derive_key, derived_key, is_cbc_encryption, pad,
    padded, same_bytes, tag_of, BLOCK_LEN, TAG_LEN,
};
use crate::hexcode::{decode_hex, encode_hex, hex_bytes, hex_text, is_hex_text, lemma_hex_round_trip};
use rand::RngCore;
use totp_rs::{Algorithm, Secret, TOTP};
use vstd::prelude::*;
use vstd::string::*;
use vstd::utf8::*;

verus! {

broadcast use {encode_utf8_valid_utf8, encode_utf8_decode_utf8};

#[derive(Debug)]
pub enum SecurityError {
    EncryptionError(String),
    DecryptionError(String),
    AuthenticationError(String),
    TOTPError(String),
}

/// Relies on `rand::thread_rng` and `RngCore::fill_bytes`: `len` bytes from
/// the thread's cryptographically secure generator.
#[verifier::external_body]
pub(crate) fn random_bytes(len: usize) -> (r: Vec<u8>)
    ensures
        r@.len() == len,
{
    let mut v = vec![0u8; len];
    rand::thread_rng().fill_bytes(&mut v);
    v
}

/// Relies on `rand::thread_rng` and `RngCore::next_u32`: one draw from the
/// thread's cryptographically secure generator.
#[verifier::external_body]
fn random_u32() -> (r: u32) {
    rand::thread_rng().next_u32()
}

/// Relies on `String::from_utf8`: the text that the bytes encode, when they
/// are valid UTF-8.
#[verifier::external_body]
fn string_from_utf8(bytes: Vec<u8>) -> (r: Option<String>)
    ensures
        r is Some <==> valid_utf8(bytes@),
        r is Some ==> r->0@ == decode_utf8(bytes@),
{
    String::from_utf8(bytes).ok()
}

/// `blob` seals `data` under `password` with this salt and initialization
/// value: it is the hex text of the salt, the initialization value, the
/// chained encryption of the padded UTF-8 of `data`, and the tag of those.
pub open spec fn is_sealing(
    blob: Seq<char>,
    data: Seq<char>,
    password: Seq<char>,
    salt: Seq<u8>,
    iv: Seq<u8>,
) -> bool {
    exists|ct: Seq<u8>|
        #[trigger] is_cbc_encryption(
            derived_key(encode_utf8(password), salt),
            iv,
            padded(encode_utf8(data)),
            ct,
        ) && blob == hex_text(
            salt + iv + ct + tag_of(derived_key(encode_utf8(password), salt), salt + iv + ct),
        )
}

/// The text that `blob` opens to under `password`, or `None` where opening
/// fails: the blob is not hex, is shorter than salt, initialization value
/// and tag, holds no whole blocks between them, its tag is not the tag of
/// what precedes it under the password's key, its last padding byte is
/// outside `1..=16`, or what remains is not UTF-8.
pub open spec fn opened(blob: Seq<char>, password: Seq<char>) -> Option<Seq<char>> {
    if !is_hex_text(blob) {
        None
    } else {
        let bytes = hex_bytes(blob);
        if bytes.len() < 64 {
            None
        } else {
            let body = bytes.subrange(0, bytes.len() - 32);
            let tag = bytes.subrange(bytes.len() - 32, bytes.len() as int);
            let ct = body.subrange(32, body.len() as int);
            let key = derived_key(encode_utf8(password), body.subrange(0, 16));
            if ct.len() == 0 || ct.len() % 16 != 0 {
                None
            } else if tag != tag_of(key, body) {
                None
            } else {
                let plain = cbc_plain(key, body.subrange(16, 32), ct);
                let n = plain.last() as int;
                if n < 1 || n > 16 {
                    None
                } else {
                    let msg = plain.subrange(0, plain.len() - n);
                    if valid_utf8(msg) {
                        Some(decode_utf8(msg))
                    } else {
                        None
                    }
                }
            }
        }
    }
}

/// Seals `data` under `password` with the given salt and initialization
/// value. The blob opens back to `data` under the same password.
pub fn encrypt_with(data: &str, password: &str, salt: &[u8], iv: &[u8]) -> (r: String)
    requires
        data.spec_bytes().len() <= isize::MAX,
        salt@.len() == BLOCK_LEN,
        iv@.len() == BLOCK_LEN,
    ensures
        is_sealing(r@, data@, password@, salt@, iv@),
        opened(r@, password@) == Some(data@),
{
    let key = derive_key(password.as_bytes(), salt);
    let plain = data.as_bytes();
    let p = pad(plain);
    let ct = cbc_encrypt(key.as_slice(), iv, p.as_slice());
    let mut all: Vec<u8> = Vec::new();
    all.extend_from_slice(salt);
    all.extend_from_slice(iv);
    all.extend_from_slice(ct.as_slice());
    let ghost body = all@;
    let tag = auth_tag(key.as_slice(), all.as_slice());
    all.extend_from_slice(tag.as_slice());
    let r = encode_hex(all.as_slice());
    proof {
        let pw = encode_utf8(password@);
        let d = encode_utf8(data@);
        assert(body == salt@ + iv@ + ct@);
        assert(all@ == body + tag@);
        lemma_hex_round_trip(all@);
        let bytes = hex_bytes(r@);
        assert(bytes.subrange(0, bytes.len() - 32) =~= body);
        assert(bytes.subrange(bytes.len() - 32, bytes.len() as int) =~= tag@);
        assert(body.subrange(0, 16) =~= salt@);
        assert(body.subrange(16, 32) =~= iv@);
        assert(body.subrange(32, body.len() as int) =~= ct@);
        let n = 16 - d.len() % 16;
        assert(padded(d)[p@.len() - 1] == n as u8);
        assert(p@.subrange(0, p@.len() - n) =~= d);
        assert(is_cbc_encryption(derived_key(pw, salt@), iv@, padded(d), ct@));
    }
    r
}

/// Seals `data` under `password` with a fresh random salt and initialization
/// value, so that two calls on the same input give different blobs. Only
/// text longer than any allocation can be is refused.
pub fn encrypt_string(data: &str, password: &str) -> (r: Result<String, SecurityError>)
    ensures
        r is Ok <==> data.spec_bytes().len() <= isize::MAX,
        r is Err ==> r matches Err(SecurityError::EncryptionError(_)),
        r matches Ok(blob) ==> exists|salt: Seq<u8>, iv: Seq<u8>|
            salt.len() == 16 && iv.len() == 16 && #[trigger] is_sealing(
                blob@,
                data@,
                password@,
                salt,
                iv,
            ),
        r matches Ok(blob) ==> opened(blob@, password@) == Some(data@),
{
    if data.as_bytes().len() > isize::MAX as usize {
        return Err(SecurityError::EncryptionError(String::from_str("Input is too long")));
    }
    let salt = random_bytes(BLOCK_LEN);
    let iv = random_bytes(BLOCK_LEN);
    let blob = encrypt_with(data, password, salt.as_slice(), iv.as_slice());
    Ok(blob)
}

/// Opens a sealed blob under `password`; fails with `DecryptionError`
/// exactly where `opened` gives nothing.
pub fn decrypt_string(encrypted_hex: &str, password: &str) -> (r: Result<String, SecurityError>)
    ensures
        r is Ok <==> opened(encrypted_hex@, password@) is Some,
        r matches Ok(text) ==> text@ == opened(encrypted_hex@, password@)->0,
        r is Err ==> r matches Err(SecurityError::DecryptionError(_)),
{
    let bytes = match decode_hex(encrypted_hex) {
        Some(b) => b,
        None => {
            return Err(SecurityError::DecryptionError(String::from_str("Invalid hex encoding")));
        },
    };
    let len: usize = bytes.len();
    if len < 2 * BLOCK_LEN + TAG_LEN {
        return Err(SecurityError::DecryptionError(String::from_str("Invalid encrypted data")));
    }
    let body_len: usize = len - TAG_LEN;
    let ct_len: usize = body_len - 2 * BLOCK_LEN;
    if ct_len == 0 {
        return Err(SecurityError::DecryptionError(String::from_str("Decrypted data is empty")));
    }
    if ct_len % BLOCK_LEN != 0 {
        return Err(SecurityError::DecryptionError(String::from_str("Invalid block length")));
    }
    let key = derive_key(password.as_bytes(), &bytes[0..BLOCK_LEN]);
    let body = &bytes[0..body_len];
    assert(body@ =~= bytes@.subrange(0, bytes@.len() - 32));
    assert(body@.subrange(0, 16) =~= bytes@.subrange(0, 16));
    let expected = auth_tag(key.as_slice(), body);
    if !same_bytes(expected.as_slice(), &bytes[body_len..len]) {
        return Err(SecurityError::DecryptionError(String::from_str("Authentication failed")));
    }
    assert(body@.subrange(0, 16) =~= bytes@.subrange(0, 16));
    assert(body@.subrange(16, 32) =~= bytes@.subrange(16, 32));
    assert(body@.subrange(32, body@.len() as int) =~= bytes@.subrange(32, body_len as int));
    let mut plain = cbc_decrypt(
        key.as_slice(),
        &bytes[BLOCK_LEN..2 * BLOCK_LEN],
        &bytes[2 * BLOCK_LEN..body_len],
    );
    let n: usize = plain[ct_len - 1] as usize;
    if n < 1 || n > BLOCK_LEN {
        return Err(SecurityError::DecryptionError(String::from_str("Invalid padding")));
    }
    plain.truncate(ct_len - n);
    match string_from_utf8(plain) {
        Some(text) => Ok(text),
        None => Err(SecurityError::DecryptionError(String::from_str("Invalid UTF-8 text"))),
    }
}

/// Upper case letters of generated passwords.
pub const PASSWORD_UPPERCASE: &'static str = "ABCDEFGHIJKLMNOPQRSTUVWXYZ";

/// Lower case letters of generated passwords.
pub const PASSWORD_LOWERCASE: &'static str = "abcdefghijklmnopqrstuvwxyz";

/// Digits of generated passwords.
pub const PASSWORD_DIGITS: &'static str = "0123456789";

/// Symbols of generated passwords.
pub const PASSWORD_SYMBOLS: &'static str = "!@#$%^&*()-_=+";

/// How many characters the four classes hold together.
pub const PASSWORD_CHARSET_LEN: usize = 76;

/// All characters that generated passwords draw from, class after class.
pub open spec fn password_charset() -> Seq<char> {
    PASSWORD_UPPERCASE@ + PASSWORD_LOWERCASE@ + PASSWORD_DIGITS@ + PASSWORD_SYMBOLS@
}

/// Where class `k` starts in the character set, and how many it holds.
pub open spec fn class_start(k: int) -> int {
    if k == 0 {
        0
    } else if k == 1 {
        26
    } else if k == 2 {
        52
    } else {
        62
    }
}

pub open spec fn class_len(k: int) -> int {
    if k == 0 || k == 1 {
        26
    } else if k == 2 {
        10
    } else {
        14
    }
}

/// The character-set index that draw `d` picks for position `i` of an
/// `n`-character password: from the position's own class for the first four
/// positions when `n >= 4`, from the whole set otherwise.
pub open spec fn picked_index(d: u32, i: int, n: int) -> int {
    if n >= 4 && i < 4 {
        class_start(i) + d as int % class_len(i)
    } else {
        d as int % 76
    }
}

pub open spec fn picked(picks: Seq<u32>) -> Seq<int> {
    Seq::new(picks.len(), |i: int| picked_index(picks[i], i, picks.len() as int))
}

/// The first `k` steps of the shuffle: step `t` swaps position `t` with
/// position `t + swaps[t] % (n - t)`.
pub open spec fn shuffled(s: Seq<int>, swaps: Seq<u32>, k: nat) -> Seq<int>
    decreases k,
{
    if k == 0 {
        s
    } else {
        let prev = shuffled(s, swaps, (k - 1) as nat);
        let t = k - 1;
        let j = t + swaps[t] as int % (s.len() - t);
        prev.update(t, prev[j]).update(j, prev[t])
    }
}

/// The password that the picks and the swaps make.
pub open spec fn password_of(picks: Seq<u32>, swaps: Seq<u32>) -> Seq<char> {
    let idx = shuffled(picked(picks), swaps, picks.len());
    Seq::new(picks.len(), |i: int| password_charset()[idx[i]])
}

/// Some character of `s` belongs to `class`.
pub open spec fn has_char_of(s: Seq<char>, class: Seq<char>) -> bool {
    exists|i: int| 0 <= i < s.len() && class.contains(#[trigger] s[i])
}

/// Every character of `s` is from the password character set.
pub open spec fn all_in_charset(s: Seq<char>) -> bool {
    forall|i: int| 0 <= i < s.len() ==> password_charset().contains(#[trigger] s[i])
}

proof fn reveal_classes()
    ensures
        PASSWORD_UPPERCASE@.len() == 26,
        PASSWORD_LOWERCASE@.len() == 26,
        PASSWORD_DIGITS@.len() == 10,
        PASSWORD_SYMBOLS@.len() == 14,
        password_charset().len() == 76,
{
    reveal_strlit("ABCDEFGHIJKLMNOPQRSTUVWXYZ");
    reveal_strlit("abcdefghijklmnopqrstuvwxyz");
    reveal_strlit("0123456789");
    reveal_strlit("!@#$%^&*()-_=+");
}

/// The class that holds character-set index `k`.
pub open spec fn class_of_index(k: int) -> Seq<char> {
    if k < 26 {
        PASSWORD_UPPERCASE@
    } else if k < 52 {
        PASSWORD_LOWERCASE@
    } else if k < 62 {
        PASSWORD_DIGITS@
    } else {
        PASSWORD_SYMBOLS@
    }
}

proof fn lemma_index_class(k: int)
    requires
        0 <= k < 76,
    ensures
        class_of_index(k).contains(password_charset()[k]),
        password_charset().contains(password_charset()[k]),
{
    reveal_classes();
    let c = password_charset()[k];
    if k < 26 {
        assert(PASSWORD_UPPERCASE@[k] == c);
    } else if k < 52 {
        assert(PASSWORD_LOWERCASE@[k - 26] == c);
    } else if k < 62 {
        assert(PASSWORD_DIGITS@[k - 52] == c);
    } else {
        assert(PASSWORD_SYMBOLS@[k - 62] == c);
    }
}

/// Value `v` stands somewhere in `t`.
pub open spec fn occurs(t: Seq<int>, v: int) -> bool {
    exists|j: int| 0 <= j < t.len() && t[j] == v
}

/// Each shuffle step keeps every index in range and keeps each index that
/// some position held.
proof fn lemma_shuffle_keeps(s: Seq<int>, swaps: Seq<u32>, k: nat)
    requires
        k <= s.len(),
        swaps.len() == s.len(),
        forall|i: int| 0 <= i < s.len() ==> 0 <= #[trigger] s[i] < 76,
    ensures
        shuffled(s, swaps, k).len() == s.len(),
        forall|i: int| 0 <= i < s.len() ==> 0 <= #[trigger] shuffled(s, swaps, k)[i] < 76,
        forall|i: int| 0 <= i < s.len() ==> occurs(shuffled(s, swaps, k), #[trigger] s[i]),
    decreases k,
{
    if k > 0 {
        lemma_shuffle_keeps(s, swaps, (k - 1) as nat);
        let prev = shuffled(s, swaps, (k - 1) as nat);
        let t = k - 1;
        let j = t + swaps[t] as int % (s.len() - t);
        let cur = shuffled(s, swaps, k);
        assert(cur == prev.update(t, prev[j]).update(j, prev[t]));
        assert forall|i: int| 0 <= i < s.len() implies occurs(cur, #[trigger] s[i]) by {
            assert(occurs(prev, s[i]));
            let w = choose|m: int| 0 <= m < prev.len() && prev[m] == s[i];
            if w == t {
                assert(cur[j] == s[i]);
            } else if w == j {
                assert(cur[t] == s[i]);
            } else {
                assert(cur[w] == s[i]);
            }
        }
    }
}

/// The password made from picks and swaps: exactly `password_of`. Every
/// character is from the set, and from four characters on there is an upper
/// case letter, a lower case letter, a digit and a symbol.
pub fn password_from_draws(picks: &[u32], swaps: &[u32]) -> (r: String)
    requires
        swaps@.len() == picks@.len(),
    ensures
        r@ == password_of(picks@, swaps@),
        all_in_charset(r@),
        picks@.len() >= 4 ==> has_char_of(r@, PASSWORD_UPPERCASE@) && has_char_of(
            r@,
            PASSWORD_LOWERCASE@,
        ) && has_char_of(r@, PASSWORD_DIGITS@) && has_char_of(r@, PASSWORD_SYMBOLS@),
{
    proof {
        reveal_classes();
    }
    let n: usize = picks.len();
    let mut idx: Vec<usize> = Vec::new();
    let mut i: usize = 0;
    while i < n
        invariant
            n == picks@.len(),
            i <= n,
            idx@.len() == i,
            forall|m: int| 0 <= m < i ==> idx@[m] as int == #[trigger] picked(picks@)[m],
        decreases n - i,
    {
        let d = picks[i];
        let k: usize = if n >= 4 && i < 4 {
            if i == 0 {
                (d % 26) as usize
            } else if i == 1 {
                26 + (d % 26) as usize
            } else if i == 2 {
                52 + (d % 10) as usize
            } else {
                62 + (d % 14) as usize
            }
        } else {
            (d % 76) as usize
        };
        idx.push(k);
        i = i + 1;
    }
    assert(idx@.map_values(|k: usize| k as int) =~= picked(picks@));
    let ghost start = picked(picks@);
    assert forall|m: int| 0 <= m < n implies 0 <= #[trigger] start[m] < 76 by {}
    let mut t: usize = 0;
    while t < n
        invariant
            n == picks@.len(),
            swaps@.len() == n,
            t <= n,
            start == picked(picks@),
            start.len() == n,
            forall|m: int| 0 <= m < n ==> 0 <= #[trigger] start[m] < 76,
            idx@.len() == n,
            idx@.map_values(|k: usize| k as int) == shuffled(start, swaps@, t as nat),
        decreases n - t,
    {
        let j: usize = t + (swaps[t] as usize) % (n - t);
        let a = idx[t];
        let b = idx[j];
        let ghost before = idx@.map_values(|k: usize| k as int);
        idx.set(t, b);
        idx.set(j, a);
        assert(idx@.map_values(|k: usize| k as int) =~= before.update(t as int, before[j as int]).update(
            j as int,
            before[t as int],
        ));
        t = t + 1;
    }
    proof {
        lemma_shuffle_keeps(start, swaps@, n as nat);
    }
    let ghost fin = shuffled(start, swaps@, n as nat);
    let mut out = String::new();
    let mut p: usize = 0;
    while p < n
        invariant
            n == picks@.len(),
            p <= n,
            idx@.len() == n,
            idx@.map_values(|k: usize| k as int) == fin,
            fin.len() == n,
            forall|m: int| 0 <= m < n ==> 0 <= #[trigger] fin[m] < 76,
            password_charset().len() == 76,
            PASSWORD_UPPERCASE@.len() == 26,
            PASSWORD_LOWERCASE@.len() == 26,
            PASSWORD_DIGITS@.len() == 10,
            PASSWORD_SYMBOLS@.len() == 14,
            out@ =~= Seq::new(p as nat, |m: int| password_charset()[fin[m]]),
        decreases n - p,
    {
        let k = idx[p];
        assert(k as int == fin[p as int]);
        let piece = if k < 26 {
            PASSWORD_UPPERCASE.substring_char(k, k + 1)
        } else if k < 52 {
            PASSWORD_LOWERCASE.substring_char(k - 26, k - 25)
        } else if k < 62 {
            PASSWORD_DIGITS.substring_char(k - 52, k - 51)
        } else {
            PASSWORD_SYMBOLS.substring_char(k - 62, k - 61)
        };
        assert(piece@ =~= seq![password_charset()[k as int]]);
        out.append(piece);
        p = p + 1;
    }
    proof {
        let r = out@;
        assert(r =~= password_of(picks@, swaps@));
        assert forall|m: int| 0 <= m < r.len() implies password_charset().contains(
            #[trigger] r[m],
        ) by {
            lemma_index_class(fin[m]);
        }
        if n >= 4 {
            assert forall|c: int| 0 <= c < 4 implies has_char_of(r, class_of_index(class_start(c)))
                by {
                let k = start[c];
                assert(class_start(c) <= k < class_start(c) + class_len(c));
                assert(class_of_index(k) == class_of_index(class_start(c)));
                assert(occurs(fin, start[c]));
                let m = choose|m: int| 0 <= m < fin.len() && fin[m] == start[c];
                lemma_index_class(k);
                assert(class_of_index(class_start(c)).contains(r[m]));
            }
            assert(has_char_of(r, class_of_index(class_start(0))));
            assert(has_char_of(r, class_of_index(class_start(1))));
            assert(has_char_of(r, class_of_index(class_start(2))));
            assert(has_char_of(r, class_of_index(class_start(3))));
        }
    }
    out
}

/// A password of `length` characters from the password character set,
/// drawn by the secure generator: from four characters on, one of each
/// class is placed first, the rest come from the whole set, and a shuffle
/// puts them in random order.
pub fn generate_secure_password(length: usize) -> (r: String)
    ensures
        r@.len() == length,
        all_in_charset(r@),
        length >= 4 ==> has_char_of(r@, PASSWORD_UPPERCASE@) && has_char_of(
            r@,
            PASSWORD_LOWERCASE@,
        ) && has_char_of(r@, PASSWORD_DIGITS@) && has_char_of(r@, PASSWORD_SYMBOLS@),
        exists|picks: Seq<u32>, swaps: Seq<u32>|
            picks.len() == length && swaps.len() == length && r@ == #[trigger] password_of(
                picks,
                swaps,
            ),
{
    let mut picks: Vec<u32> = Vec::new();
    let mut swaps: Vec<u32> = Vec::new();
    let mut i: usize = 0;
    while i < length
        invariant
            i <= length,
            picks@.len() == i,
            swaps@.len() == i,
        decreases length - i,
    {
        picks.push(random_u32());
        swaps.push(random_u32());
        i = i + 1;
    }
    password_from_draws(picks.as_slice(), swaps.as_slice())
}

/// Digits of a one-time code.
pub const TOTP_DIGITS: usize = 6;

/// Seconds of one time step.
pub const TOTP_STEP: u64 = 30;

/// Bytes of a freshly provisioned secret.
pub const TOTP_SECRET_LEN: usize = 32;

/// Fewest secret bytes that a one-time code generator accepts.
pub const TOTP_MIN_SECRET_LEN: usize = 16;

/// What RFC 4648 base32, unpadded, gives for a byte string.
pub uninterp spec fn base32_of(bytes: Seq<u8>) -> Seq<char>;

/// What unpadded RFC 4648 base32 text decodes to, if it decodes.
pub uninterp spec fn base32_decoded(text: Seq<char>) -> Option<Seq<u8>>;

/// The SHA-1 one-time code of `digits` digits for a secret and a time-step
/// counter (seconds since the epoch divided by the step).
pub uninterp spec fn totp_code_of(secret: Seq<u8>, digits: usize, counter: u64) -> Seq<char>;

/// Relies on `totp_rs::Secret::to_encoded`: the unpadded base32 text of the
/// bytes, which `Secret::to_bytes` decodes back.
#[verifier::external_body]
fn encode_base32(bytes: &[u8]) -> (r: String)
    ensures
        r@ == base32_of(bytes@),
        base32_decoded(r@) == Some(bytes@),
{
    Secret::Raw(bytes.to_vec()).to_encoded().to_string()
}

/// Relies on `totp_rs::Secret::to_bytes`: the bytes that unpadded base32
/// text stands for, or nothing where it is malformed.
#[verifier::external_body]
fn decode_base32(text: &str) -> (r: Option<Vec<u8>>)
    ensures
        r is Some <==> base32_decoded(text@) is Some,
        r is Some ==> r->0@ == base32_decoded(text@)->0,
{
    Secret::Encoded(text.to_string()).to_bytes().ok()
}

/// Relies on `totp_rs::TOTP::generate`: the SHA-1 one-time code for the
/// secret at the given time, which it signs as the counter `time / step`.
#[verifier::external_body]
fn totp_code(secret: &[u8], digits: usize, step: u64, time: u64) -> (r: String)
    requires
        6 <= digits <= 8,
        step > 0,
    ensures
        r@ == totp_code_of(secret@, digits, time / step),
{
    TOTP::new_unchecked(Algorithm::SHA1, digits, 1, step, secret.to_vec()).generate(time)
}

/// Relies on `std::time::SystemTime::now`: seconds since the Unix epoch, or
/// nothing where the clock reads earlier.
#[verifier::external_body]
pub(crate) fn unix_time_now() -> (r: Option<u64>) {
    std::time::SystemTime::now().duration_since(std::time::UNIX_EPOCH).ok().map(|d| d.as_secs())
}

/// The `otpauth://` address that an authenticator app takes the secret from.
pub open spec fn otpauth_uri(label: Seq<char>, secret: Seq<char>) -> Seq<char> {
    "otpauth://totp/"@ + label + "?secret="@ + secret + "&issuer=SafeCoin%20Wallet"@
}

/// Builds the provisioning address for an account label and a base32 secret.
pub fn provisioning_uri(account_label: &str, secret: &str) -> (r: String)
    ensures
        r@ == otpauth_uri(account_label@, secret@),
{
    let mut uri = String::from_str("otpauth://totp/");
    uri.append(account_label);
    uri.append("?secret=");
    uri.append(secret);
    uri.append("&issuer=SafeCoin%20Wallet");
    uri
}

/// Provisions a second factor for `username`: a fresh random 32-byte secret
/// in base32, and the address that carries it to an authenticator.
pub fn setup_2fa(username: &str) -> (r: Result<(String, String), SecurityError>)
    ensures
        r is Ok,
        r matches Ok((secret, uri)) ==> uri@ == otpauth_uri(username@, secret@),
        r matches Ok((secret, uri)) ==> exists|b: Seq<u8>|
            b.len() == TOTP_SECRET_LEN && secret@ == #[trigger] base32_of(b) && base32_decoded(
                secret@,
            ) == Some(b),
{
    let bytes = random_bytes(TOTP_SECRET_LEN);
    let secret = encode_base32(bytes.as_slice());
    let uri = provisioning_uri(username, secret.as_str());
    Ok((secret, uri))
}

/// The secret bytes that base32 text gives a code generator: none where the
/// text does not decode or decodes to fewer than 16 bytes.
pub open spec fn totp_key(secret: Seq<char>) -> Option<Seq<u8>> {
    match base32_decoded(secret) {
        Some(b) => if b.len() < TOTP_MIN_SECRET_LEN {
            None
        } else {
            Some(b)
        },
        None => None,
    }
}

/// The outcome of checking `token` against a base32 secret at `time`: an
/// error where the secret gives no key, else whether the token is the code
/// of the 30-second time step that holds `time`.
pub open spec fn totp_check(secret: Seq<char>, token: Seq<char>, time: u64) -> Option<bool> {
    match totp_key(secret) {
        None => None,
        Some(b) => Some(token == totp_code_of(b, TOTP_DIGITS, time / TOTP_STEP)),
    }
}

/// Checks a one-time code against a base32 secret at a given time. A code
/// that does not match is `Ok(false)`; only a malformed secret is an error.
pub fn verify_2fa_at(secret: &str, token: &str, time: u64) -> (r: Result<bool, SecurityError>)
    ensures
        r is Ok <==> totp_check(secret@, token@, time) is Some,
        r matches Ok(ok) ==> ok == totp_check(secret@, token@, time)->0,
        r is Err ==> r matches Err(SecurityError::TOTPError(_)),
{
    let bytes = match decode_base32(secret) {
        Some(b) => b,
        None => {
            return Err(SecurityError::TOTPError(String::from_str("Invalid base32 secret")));
        },
    };
    if bytes.len() < TOTP_MIN_SECRET_LEN {
        return Err(SecurityError::TOTPError(String::from_str("Secret is shorter than 128 bits")));
    }
    let code = totp_code(bytes.as_slice(), TOTP_DIGITS, TOTP_STEP, time);
    let submitted = token.to_owned();
    Ok(submitted == code)
}

/// Checks a one-time code against a base32 secret at the current time.
/// The account label names the account and takes no part in the check.
pub fn verify_2fa(secret: &str, token: &str, username: &str) -> (r: Result<bool, SecurityError>)
    ensures
        totp_key(secret@) is None ==> r matches Err(SecurityError::TOTPError(_)),
        r matches Ok(ok) ==> exists|t: u64| ok == (#[trigger] totp_check(secret@, token@, t))->0,
        r is Err ==> r matches Err(SecurityError::TOTPError(_)),
{
    match unix_time_now() {
        Some(t) => verify_2fa_at(secret, token, t),
        None => Err(SecurityError::TOTPError(String::from_str("System clock is before 1970"))),
    }
}

} // verus!
