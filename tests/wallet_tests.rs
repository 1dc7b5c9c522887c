use safecoin_wallet::config::{join_path, AppConfig};
use safecoin_wallet::security::decrypt_string;
use safecoin_wallet::wallet::{
    address_from_public_key, derive_addresses, lookup_address, wallet_file_name,
    wallet_from_entropy, wallet_id_of_file, CoinType, Wallet, WalletError, WalletManager,
};
use secp256k1::{PublicKey, Secp256k1, SecretKey};

fn manager() -> WalletManager {
    let mut config = AppConfig::for_home("/tmp/home");
    config.data_dir = "/tmp/safecoin-wallet-test".to_string();
    WalletManager::new(&config).unwrap()
}

fn compressed_key(secret: &[u8]) -> Vec<u8> {
    let secp = Secp256k1::new();
    let sk = SecretKey::from_slice(secret).unwrap();
    PublicKey::from_secret_key(&secp, &sk).serialize().to_vec()
}

#[test]
fn test_wallet_creation() {
    let wallet_manager = manager();

    let wallet = wallet_manager.generate_wallet("Test Wallet", "test_password123").unwrap();

    assert_eq!(wallet.name, "Test Wallet");
    assert!(!wallet.seed_phrase.is_empty());
    assert!(wallet.get_address(CoinType::Bitcoin).is_ok());
    assert!(wallet.get_address(CoinType::Ethereum).is_ok());

    // What is kept is the record without its phrase; loading restores it.
    let stored = wallet.clone().without_seed();
    assert!(stored.seed_phrase.is_empty());
    let loaded_wallet = stored.clone().unlock("test_password123").unwrap();
    assert_eq!(loaded_wallet.name, wallet.name);
    assert_eq!(loaded_wallet.seed_phrase, wallet.seed_phrase);

    let wrong_pass_result = stored.unlock("wrong_password");
    assert!(wrong_pass_result.is_err());
}

#[test]
fn test_wallet_listing() {
    let wallet_manager = manager();

    let wallet1 = wallet_manager.generate_wallet("Wallet 1", "password1").unwrap();
    let wallet2 = wallet_manager.generate_wallet("Wallet 2", "password2").unwrap();

    let files = vec![wallet_file_name(&wallet1.id), wallet_file_name(&wallet2.id)];
    let wallets = wallet_manager.list_wallets(&files);

    assert!(wallets.contains(&wallet1.id));
    assert!(wallets.contains(&wallet2.id));
}

#[test]
fn generated_wallet_is_well_formed() {
    let w = manager().generate_wallet("W", "pw").unwrap();
    assert_eq!(w.seed_phrase.split(' ').count(), 12);
    assert_eq!(w.coin_types, vec!["bitcoin".to_string(), "ethereum".to_string()]);
    assert_eq!(w.addresses.len(), 2);
    assert_eq!(w.addresses[0].0, "bitcoin");
    assert_eq!(w.addresses[1].0, "ethereum");
    assert_eq!(w.id.len(), 36);
    assert!(w.created_at > 1_600_000_000);
    assert_eq!(decrypt_string(&w.encrypted_seed, "pw").unwrap(), w.seed_phrase);
}

#[test]
fn stored_wallet_round_trips_every_field() {
    let w = manager().generate_wallet("Round", "pw").unwrap();
    let back = w.clone().without_seed().unlock("pw").unwrap();
    assert_eq!(back.id, w.id);
    assert_eq!(back.name, w.name);
    assert_eq!(back.seed_phrase, w.seed_phrase);
    assert_eq!(back.encrypted_seed, w.encrypted_seed);
    assert_eq!(back.addresses, w.addresses);
    assert_eq!(back.coin_types, w.coin_types);
    assert_eq!(back.created_at, w.created_at);
}

#[test]
fn wrong_password_load_is_an_error() {
    let m = manager();
    let w = m.generate_wallet("W", "right").unwrap();
    let blob = m.seal_record("{\"record\":1}", "right").unwrap();
    for wrong in ["wrong", "Right", "right ", ""] {
        assert!(matches!(w.clone().without_seed().unlock(wrong), Err(WalletError::EncryptionError(_))));
        assert!(matches!(m.open_record(&w.id, Some(&blob), wrong), Err(WalletError::EncryptionError(_))));
    }
}

#[test]
fn records_open_back_and_missing_ones_are_not_found() {
    let m = manager();
    let record = "{\"id\":\"abc\",\"name\":\"n\"}";
    let blob = m.seal_record(record, "pw").unwrap();
    assert_ne!(blob, record);
    assert_eq!(m.open_record("abc", Some(&blob), "pw").unwrap(), record);
    match m.open_record("abc", None, "pw") {
        Err(WalletError::WalletNotFound(id)) => assert_eq!(id, "abc"),
        _ => panic!("a missing record is WalletNotFound"),
    }
}

#[test]
fn known_entropy_gives_the_reference_phrase() {
    let w = wallet_from_entropy("id-1".to_string(), "Ref", "", &[0u8; 16], 42).unwrap();
    assert_eq!(
        w.seed_phrase,
        "abandon abandon abandon abandon abandon abandon abandon abandon abandon abandon abandon about"
    );
    assert_eq!(w.id, "id-1");
    assert_eq!(w.created_at, 42);
}

#[test]
fn password_takes_part_in_the_seed() {
    let a = wallet_from_entropy("a".to_string(), "A", "one", &[5u8; 16], 0).unwrap();
    let b = wallet_from_entropy("b".to_string(), "B", "two", &[5u8; 16], 0).unwrap();
    assert_eq!(a.seed_phrase, b.seed_phrase);
    assert_ne!(a.addresses, b.addresses);
}

#[test]
fn coins_use_disjoint_seed_slices_and_distinct_addresses() {
    let mut seed = vec![1u8; 32];
    seed.extend_from_slice(&[2u8; 32]);
    let a = derive_addresses(&seed, &[CoinType::Bitcoin, CoinType::Ethereum]).unwrap();
    let btc_key = compressed_key(&[1u8; 32]);
    let eth_key = compressed_key(&[2u8; 32]);
    assert_eq!(a[0], ("bitcoin".to_string(), format!("btc_{}", hex::encode(&btc_key[0..20]))));
    assert_eq!(a[1], ("ethereum".to_string(), format!("0x{}", hex::encode(&eth_key[1..21]))));
    assert_ne!(a[0].1, a[1].1);
    // Changing the Ethereum half leaves the Bitcoin address as it was.
    let mut other = seed.clone();
    other[40] = 9;
    let b = derive_addresses(&other, &[CoinType::Bitcoin, CoinType::Ethereum]).unwrap();
    assert_eq!(a[0], b[0]);
    assert_ne!(a[1], b[1]);
}

#[test]
fn invalid_scalars_and_unsupported_coins_fail() {
    let zeros = vec![0u8; 64];
    assert!(matches!(derive_addresses(&zeros, &[CoinType::Bitcoin]), Err(WalletError::CryptoError(_))));
    let seed = vec![1u8; 64];
    assert!(matches!(
        derive_addresses(&seed, &[CoinType::Bitcoin, CoinType::Solana]),
        Err(WalletError::InvalidKeyError(_))
    ));
    assert_eq!(derive_addresses(&seed, &[]).unwrap().len(), 0);
}

#[test]
fn address_format_per_coin() {
    let key: Vec<u8> = (0u8..33).collect();
    assert_eq!(
        address_from_public_key(CoinType::Bitcoin, &key).unwrap(),
        "btc_000102030405060708090a0b0c0d0e0f10111213"
    );
    assert_eq!(
        address_from_public_key(CoinType::Ethereum, &key).unwrap(),
        "0x0102030405060708090a0b0c0d0e0f1011121314"
    );
    assert!(address_from_public_key(CoinType::Cardano, &key).is_none());
    assert!(address_from_public_key(CoinType::Bitcoin, &key[..32]).is_none());
}

#[test]
fn missing_coin_address_is_invalid_key_error() {
    let w = manager().generate_wallet("W", "pw").unwrap();
    assert!(matches!(w.get_address(CoinType::Solana), Err(WalletError::InvalidKeyError(_))));
    assert!(matches!(w.get_address(CoinType::Cardano), Err(WalletError::InvalidKeyError(_))));
    assert_eq!(w.get_address(CoinType::Bitcoin).unwrap(), w.addresses[0].1);
    assert!(w.get_address(CoinType::Ethereum).unwrap().starts_with("0x"));
    assert!(w.get_address(CoinType::Bitcoin).unwrap().starts_with("btc_"));
}

#[test]
fn listing_returns_exactly_the_wallet_files() {
    let m = manager();
    let w1 = m.generate_wallet("1", "p").unwrap();
    let w2 = m.generate_wallet("2", "p").unwrap();
    let w3 = m.generate_wallet("3", "p").unwrap();
    let files = vec![wallet_file_name(&w1.id), wallet_file_name(&w2.id), wallet_file_name(&w3.id)];
    let mut ids = m.list_wallets(&files);
    ids.sort();
    let mut expected = vec![w1.id.clone(), w2.id.clone(), w3.id.clone()];
    expected.sort();
    assert_eq!(ids, expected);
    assert!(m.list_wallets(&[]).is_empty());
}

#[test]
fn only_json_files_are_wallets() {
    assert_eq!(wallet_id_of_file("abc.json"), Some("abc".to_string()));
    assert_eq!(wallet_id_of_file("a.b.json"), Some("a.b".to_string()));
    assert_eq!(wallet_id_of_file(".json"), None);
    assert_eq!(wallet_id_of_file("abc.txt"), None);
    assert_eq!(wallet_id_of_file("json"), None);
    let m = manager();
    let names = vec!["x.json".to_string(), "notes.txt".to_string(), "y.json".to_string()];
    assert_eq!(m.list_wallets(&names), vec!["x".to_string(), "y".to_string()]);
}

#[test]
fn paths_follow_the_data_directory() {
    let m = manager();
    assert_eq!(m.wallets_path(), "/tmp/safecoin-wallet-test/wallets");
    assert_eq!(m.wallet_path("abc"), "/tmp/safecoin-wallet-test/wallets/abc.json");
    assert_eq!(join_path("/", "x"), "/x");
    assert_eq!(join_path("", "x"), "x");
    assert_eq!(join_path("a/b", "c"), "a/b/c");
}

#[test]
fn default_config_for_a_home() {
    let c = AppConfig::for_home("/home/u");
    assert_eq!(c.data_dir, "/home/u/.safecoin-wallet");
    assert_eq!(c.btc_api_url, "");
    assert!(c.enable_testnet);
    assert!(!c.enable_2fa);
    assert_eq!(c.auto_lock_minutes, 15);
    assert_eq!(c.supported_coins, vec!["bitcoin".to_string(), "ethereum".to_string()]);
    let d = AppConfig::default();
    assert!(d.data_dir.ends_with(".safecoin-wallet"));
}

#[test]
fn coin_names() {
    assert_eq!(CoinType::Bitcoin.name(), "bitcoin");
    assert_eq!(CoinType::Ethereum.name(), "ethereum");
    assert_eq!(CoinType::Solana.name(), "solana");
    assert_eq!(CoinType::Cardano.name(), "cardano");
}

fn pair(a: &str, b: &str) -> (String, String) {
    (a.to_string(), b.to_string())
}

#[test]
fn records_rebuild_wallets_in_coin_order() {
    let entries = vec![pair("ethereum", "0xabc"), pair("bitcoin", "btc_def")];
    let coins = vec!["bitcoin".to_string(), "ethereum".to_string()];
    let w = Wallet::from_record("id".into(), "n".into(), "blob".into(), entries, coins, 7).unwrap();
    assert_eq!(w.addresses, vec![pair("bitcoin", "btc_def"), pair("ethereum", "0xabc")]);
    assert_eq!(w.seed_phrase, "");
    assert_eq!(w.created_at, 7);
    assert_eq!(w.get_address(CoinType::Ethereum).unwrap(), "0xabc");
}

#[test]
fn records_missing_an_address_or_repeating_a_coin_are_rejected() {
    let missing = Wallet::from_record(
        "id".into(),
        "n".into(),
        "blob".into(),
        vec![pair("bitcoin", "btc_def")],
        vec!["bitcoin".to_string(), "ethereum".to_string()],
        0,
    );
    assert!(matches!(missing, Err(WalletError::SerializationError(_))));
    let repeated = Wallet::from_record(
        "id".into(),
        "n".into(),
        "blob".into(),
        vec![pair("bitcoin", "btc_def")],
        vec!["bitcoin".to_string(), "bitcoin".to_string()],
        0,
    );
    assert!(matches!(repeated, Err(WalletError::SerializationError(_))));
}

#[test]
fn lookup_takes_the_first_entry() {
    let entries = vec![pair("a", "1"), pair("b", "2"), pair("a", "3")];
    assert_eq!(lookup_address(&entries, &"a".to_string()), Some("1".to_string()));
    assert_eq!(lookup_address(&entries, &"b".to_string()), Some("2".to_string()));
    assert_eq!(lookup_address(&entries, &"c".to_string()), None);
}

#[test]
fn generated_ids_are_hyphenated_uuids() {
    let w = manager().generate_wallet("W", "pw").unwrap();
    let dashes: Vec<usize> = w.id.char_indices().filter(|(_, c)| *c == '-').map(|(i, _)| i).collect();
    assert_eq!(dashes, vec![8, 13, 18, 23]);
    assert!(w.id.chars().all(|c| c == '-' || c.is_ascii_digit() || ('a'..='f').contains(&c)));
    assert!(w.seed_phrase.chars().all(|c| c == ' ' || c.is_ascii_lowercase()));
}

#[test]
fn scalar_at_or_above_the_group_order_is_rejected() {
    let order = hex::decode("fffffffffffffffffffffffffffffffebaaedce6af48a03bbfd25e8cd0364141").unwrap();
    let mut seed = order.clone();
    seed.extend_from_slice(&[1u8; 32]);
    assert!(matches!(derive_addresses(&seed, &[CoinType::Bitcoin]), Err(WalletError::CryptoError(_))));
    assert!(derive_addresses(&seed, &[CoinType::Ethereum]).is_ok());
    let mut below = order.clone();
    below[31] -= 1;
    below.extend_from_slice(&[1u8; 32]);
    assert!(derive_addresses(&below, &[CoinType::Bitcoin]).is_ok());
}
