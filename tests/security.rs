use safecoin_wallet::cipher::{auth_tag, cbc_decrypt, cbc_encrypt, derive_key, pad, KDF_ROUNDS};
use safecoin_wallet::security::{
    decrypt_string, encrypt_string, encrypt_with, generate_secure_password, password_from_draws,
    provisioning_uri, setup_2fa, verify_2fa, verify_2fa_at, SecurityError, PASSWORD_DIGITS,
    PASSWORD_LOWERCASE, PASSWORD_SYMBOLS, PASSWORD_UPPERCASE,
};
use hmac::{Hmac, Mac};
use sha2::Digest;
use totp_rs::{Algorithm, Secret, TOTP};

fn code_at(secret: &str, time: u64) -> String {
    let bytes = Secret::Encoded(secret.to_string()).to_bytes().unwrap();
    TOTP::new(Algorithm::SHA1, 6, 1, 30, bytes).unwrap().generate(time)
}

fn has_all_classes(p: &str) -> bool {
    p.chars().any(|c| c.is_uppercase())
        && p.chars().any(|c| c.is_lowercase())
        && p.chars().any(|c| c.is_ascii_digit())
        && p.chars().any(|c| !c.is_alphanumeric())
}

#[test]
fn test_encryption_decryption() {
    let original_text = "This is a secret message that needs to be encrypted";
    let password = "secure_password_123";

    let encrypted = encrypt_string(original_text, password).unwrap();
    assert_ne!(encrypted, original_text);

    let decrypted = decrypt_string(&encrypted, password).unwrap();
    assert_eq!(decrypted, original_text);

    let result = decrypt_string(&encrypted, "wrong_password");
    assert!(result.is_err());
}

#[test]
fn test_2fa_setup_verify() {
    let (secret, totp_url) = setup_2fa("alice").unwrap();

    assert!(totp_url.starts_with("otpauth://"));
    assert!(totp_url.contains(&secret));

    let invalid_token = "123456";
    let result = verify_2fa(&secret, invalid_token, "alice");

    // A code that does not match is Ok(false), not an error.
    assert!(result.is_ok());
    let now = std::time::SystemTime::now()
        .duration_since(std::time::UNIX_EPOCH)
        .unwrap()
        .as_secs();
    let is_current = [now - 30, now, now + 30]
        .iter()
        .any(|t| code_at(&secret, *t) == invalid_token);
    if !is_current {
        assert!(!result.unwrap());
    }
}

#[test]
fn test_password_generation() {
    let password = generate_secure_password(16);

    assert_eq!(password.len(), 16);

    let has_uppercase = password.chars().any(|c| c.is_uppercase());
    let has_lowercase = password.chars().any(|c| c.is_lowercase());
    let has_digit = password.chars().any(|c| c.is_digit(10));
    let has_special = password.chars().any(|c| !c.is_alphanumeric());

    assert!(has_uppercase);
    assert!(has_lowercase);
    assert!(has_digit);
    assert!(has_special);
}

#[test]
fn all_classes_in_nearly_every_sample() {
    let samples = 1000;
    let full = (0..samples).filter(|_| has_all_classes(&generate_secure_password(16))).count();
    assert!(full * 100 >= samples * 99);
}

#[test]
fn short_passwords_still_hold_every_class() {
    for _ in 0..200 {
        let p = generate_secure_password(4);
        assert_eq!(p.len(), 4);
        assert!(p.chars().any(|c| PASSWORD_UPPERCASE.contains(c)));
        assert!(p.chars().any(|c| PASSWORD_LOWERCASE.contains(c)));
        assert!(p.chars().any(|c| PASSWORD_DIGITS.contains(c)));
        assert!(p.chars().any(|c| PASSWORD_SYMBOLS.contains(c)));
    }
}

#[test]
fn passwords_are_not_repeated() {
    assert_ne!(generate_secure_password(16), generate_secure_password(16));
}

#[test]
fn round_trip_over_assorted_texts() {
    let texts = ["", "a", "exactly sixteen!", "sixteen + one ..", "ünïcødé ✓ 🚀", "line\nbreak\ttab"];
    for t in texts {
        let blob = encrypt_string(t, "pw").unwrap();
        assert_eq!(decrypt_string(&blob, "pw").unwrap(), t);
    }
}

#[test]
fn blob_layout_is_salt_iv_and_whole_blocks() {
    let blob = encrypt_string("exactly sixteen!", "pw").unwrap();
    // 16 bytes of salt, 16 of iv, two blocks (a full block of padding
    // follows), and a 32-byte tag.
    assert_eq!(blob.len(), 2 * (16 + 16 + 32 + 32));
    assert!(blob.chars().all(|c| c.is_ascii_hexdigit() && !c.is_ascii_uppercase()));
    let short = encrypt_string("short", "pw").unwrap();
    assert_eq!(short.len(), 2 * (16 + 16 + 16 + 32));
}

#[test]
fn encryption_is_not_deterministic() {
    let a = encrypt_string("same input", "same password").unwrap();
    let b = encrypt_string("same input", "same password").unwrap();
    assert_ne!(a, b);
}

#[test]
fn fixed_salt_and_iv_give_a_fixed_blob() {
    let salt = [7u8; 16];
    let iv = [9u8; 16];
    let a = encrypt_with("hello", "pw", &salt, &iv);
    let b = encrypt_with("hello", "pw", &salt, &iv);
    assert_eq!(a, b);
    assert!(a.starts_with(&"07".repeat(16)));
    assert_eq!(&a[32..64], "09".repeat(16));
    assert_eq!(decrypt_string(&a, "pw").unwrap(), "hello");
}

#[test]
fn wrong_passwords_never_open_to_the_plaintext() {
    let plaintext = "a secret phrase";
    let blob = encrypt_string(plaintext, "right password").unwrap();
    for i in 0..200 {
        let wrong = format!("wrong password {}", i);
        match decrypt_string(&blob, &wrong) {
            Ok(text) => assert_ne!(text, plaintext),
            Err(e) => assert!(matches!(e, SecurityError::DecryptionError(_))),
        }
    }
}

#[test]
fn any_changed_byte_is_refused() {
    let blob = encrypt_string("pay 10 to alice", "pw").unwrap();
    let bytes = hex::decode(&blob).unwrap();
    for i in [0, 15, 16, 31, 32, 47, bytes.len() - 1] {
        let mut changed = bytes.clone();
        changed[i] ^= 1;
        let r = decrypt_string(&hex::encode(&changed), "pw");
        assert!(matches!(r, Err(SecurityError::DecryptionError(_))));
    }
    assert_eq!(decrypt_string(&blob, "pw").unwrap(), "pay 10 to alice");
}

#[test]
fn tag_is_hmac_sha256_under_a_derived_key() {
    let key = [5u8; 32];
    let mut input = key.to_vec();
    input.push(1);
    let mac_key = sha2::Sha256::digest(&input);
    let mut m = <Hmac<sha2::Sha256> as Mac>::new_from_slice(&mac_key).unwrap();
    m.update(b"message");
    assert_eq!(auth_tag(&key, b"message"), m.finalize().into_bytes().to_vec());
}

#[test]
fn malformed_blobs_are_decryption_errors() {
    let not_hex = decrypt_string("zz", "pw");
    assert!(matches!(not_hex, Err(SecurityError::DecryptionError(_))));
    let odd = decrypt_string("abc", "pw");
    assert!(matches!(odd, Err(SecurityError::DecryptionError(_))));
    let short = decrypt_string(&"00".repeat(31), "pw");
    assert!(matches!(short, Err(SecurityError::DecryptionError(_))));
    let no_blocks = decrypt_string(&"00".repeat(64), "pw");
    assert!(matches!(no_blocks, Err(SecurityError::DecryptionError(_))));
    let partial = decrypt_string(&"00".repeat(72), "pw");
    assert!(matches!(partial, Err(SecurityError::DecryptionError(_))));
}

#[test]
fn bad_padding_byte_is_rejected() {
    // A block whose last plaintext byte is 0 after decryption.
    let key = derive_key(b"pw", &[1u8; 16]);
    let mut plain = vec![b'x'; 15];
    plain.push(0);
    let ct = cbc_encrypt(&key, &[2u8; 16], &plain);
    let mut bytes = vec![1u8; 16];
    bytes.extend_from_slice(&[2u8; 16]);
    bytes.extend_from_slice(&ct);
    let tag = auth_tag(&key, &bytes);
    bytes.extend_from_slice(&tag);
    let r = decrypt_string(&hex::encode(&bytes), "pw");
    assert!(matches!(r, Err(SecurityError::DecryptionError(_))));
}

#[test]
fn invalid_utf8_is_rejected() {
    let key = derive_key(b"pw", &[1u8; 16]);
    let mut plain = vec![0xffu8; 15];
    plain.push(1);
    let ct = cbc_encrypt(&key, &[2u8; 16], &plain);
    let mut bytes = vec![1u8; 16];
    bytes.extend_from_slice(&[2u8; 16]);
    bytes.extend_from_slice(&ct);
    let tag = auth_tag(&key, &bytes);
    bytes.extend_from_slice(&tag);
    let r = decrypt_string(&hex::encode(&bytes), "pw");
    assert!(matches!(r, Err(SecurityError::DecryptionError(_))));
}

#[test]
fn key_is_the_salted_digest_hashed_again() {
    let salt = [3u8; 16];
    let mut k = sha2::Sha256::new().chain_update(b"password").chain_update(salt).finalize().to_vec();
    for _ in 0..KDF_ROUNDS {
        k = sha2::Sha256::digest(&k).to_vec();
    }
    assert_eq!(derive_key(b"password", &salt), k);
    assert_ne!(derive_key(b"password", &[4u8; 16]), k);
}

#[test]
fn padding_fills_to_whole_blocks() {
    assert_eq!(pad(b""), vec![16u8; 16]);
    let mut fifteen = vec![b'a'; 15];
    fifteen.push(1);
    assert_eq!(pad(&[b'a'; 15]), fifteen);
    let full = pad(&[b'a'; 16]);
    assert_eq!(full.len(), 32);
    assert_eq!(&full[16..], &[16u8; 16]);
}

#[test]
fn cbc_matches_the_published_aes256_vector() {
    let key = hex::decode("603deb1015ca71be2b73aef0857d77811f352c073b6108d72d9810a30914dff4").unwrap();
    let iv = hex::decode("000102030405060708090a0b0c0d0e0f").unwrap();
    let pt = hex::decode("6bc1bee22e409f96e93d7e117393172aae2d8a571e03ac9c9eb76fac45af8e51").unwrap();
    let ct = cbc_encrypt(&key, &iv, &pt);
    assert_eq!(
        hex::encode(&ct),
        "f58c4c04d6e5f1ba779eabfb5f7bfbd69cfc4e967edb808d679f777bc6702c7d"
    );
    assert_eq!(cbc_decrypt(&key, &iv, &ct), pt);
}

#[test]
fn draws_pick_characters_and_shuffle_them() {
    // Without swaps that move anything (every swap draw 0), the first four
    // positions hold one character of each class, the rest come from the set.
    let picks = [0u32, 27, 3, 1, 26, 75, 152];
    let none = [0u32; 7];
    assert_eq!(password_from_draws(&picks, &none), "Ab3@a+A");
    // Swap draw 1 at step 0 exchanges positions 0 and 1.
    let mut one = [0u32; 7];
    one[0] = 1;
    assert_eq!(password_from_draws(&picks, &one), "bA3@a+A");
    // Under four characters every pick is from the whole set.
    assert_eq!(password_from_draws(&[0, 26, 52], &[0, 0, 0]), "Aa0");
    assert_eq!(password_from_draws(&[], &[]), "");
}

#[test]
fn generated_passwords_have_the_requested_length() {
    assert_eq!(generate_secure_password(0), "");
    assert_eq!(generate_secure_password(4).len(), 4);
    assert_eq!(generate_secure_password(64).chars().count(), 64);
}

#[test]
fn provisioning_uri_carries_label_secret_and_issuer() {
    assert_eq!(
        provisioning_uri("bob", "ABCDEF"),
        "otpauth://totp/bob?secret=ABCDEF&issuer=SafeCoin%20Wallet"
    );
}

#[test]
fn provisioned_secret_decodes_to_32_bytes() {
    let (secret, uri) = setup_2fa("carol").unwrap();
    assert_eq!(Secret::Encoded(secret.clone()).to_bytes().unwrap().len(), 32);
    assert_eq!(uri, format!("otpauth://totp/carol?secret={}&issuer=SafeCoin%20Wallet", secret));
    let (other, _) = setup_2fa("carol").unwrap();
    assert_ne!(secret, other);
}

#[test]
fn code_of_the_time_step_verifies() {
    let (secret, _) = setup_2fa("dave").unwrap();
    let t = 1_700_000_000u64;
    let code = code_at(&secret, t);
    assert_eq!(verify_2fa_at(&secret, &code, t).unwrap(), true);
    // Same 30-second step.
    let step_start = t - t % 30;
    assert_eq!(verify_2fa_at(&secret, &code, step_start + 29).unwrap(), true);
    let other = if code == "000000" { "000001" } else { "000000" };
    assert_eq!(verify_2fa_at(&secret, other, t).unwrap(), false);
}

#[test]
fn current_code_verifies_and_zeros_do_not() {
    let (secret, _) = setup_2fa("erin").unwrap();
    let bytes = Secret::Encoded(secret.clone()).to_bytes().unwrap();
    let totp = TOTP::new(Algorithm::SHA1, 6, 1, 30, bytes).unwrap();
    let mut ok = false;
    for _ in 0..2 {
        let code = totp.generate_current().unwrap();
        if verify_2fa(&secret, &code, "erin").unwrap() {
            ok = true;
            break;
        }
    }
    assert!(ok);
    let zeros = verify_2fa(&secret, "000000", "erin");
    assert!(zeros.is_ok());
    let current = totp.generate_current().unwrap();
    if current != "000000" {
        assert_eq!(zeros.unwrap(), false);
    }
}

#[test]
fn malformed_or_short_secrets_are_totp_errors() {
    let bad = verify_2fa_at("not base32!", "123456", 0);
    assert!(matches!(bad, Err(SecurityError::TOTPError(_))));
    let short_secret = Secret::Raw(vec![1u8; 10]).to_encoded().to_string();
    let short = verify_2fa_at(&short_secret, "123456", 0);
    assert!(matches!(short, Err(SecurityError::TOTPError(_))));
    let via_clock = verify_2fa("not base32!", "123456", "x");
    assert!(matches!(via_clock, Err(SecurityError::TOTPError(_))));
}
