//! Wallets: key material from a recovery phrase, one address per coin, the
//! record kept on disk, and the rules of the wallet store.
//!
//! The store itself (files and their text) is driven by the caller; this
//! module decides what goes into a record, how it is sealed and opened, and
//! which directory entries are wallets.

use crate::config::{join_path, joined, AppConfig};
use crate::hexcode::{encode_hex, hex_text};
use crate::security::{decrypt_string, encrypt_string, opened, random_bytes, unix_time_now};
use secp256k1::{PublicKey, Secp256k1, SecretKey};
use vstd::prelude::*;
use vstd::string::*;
use vstd::utf8::*;

verus! {

broadcast use is_ascii_chars_encode_utf8;

#[derive(Debug)]
pub enum WalletError {
    IoError(String),
    EncryptionError(String),
    InvalidKeyError(String),
    SerializationError(String),
    WalletNotFound(String),
    CryptoError(String),
}

#[derive(Clone, Copy, Debug, PartialEq, Eq, Structural)]
pub enum CoinType {
    Bitcoin,
    Ethereum,
    Solana,
    Cardano,
}

/// The identifier under which a coin's address is kept.
pub open spec fn coin_id(c: CoinType) -> Seq<char> {
    match c {
        CoinType::Bitcoin => "bitcoin"@,
        CoinType::Ethereum => "ethereum"@,
        CoinType::Solana => "solana"@,
        CoinType::Cardano => "cardano"@,
    }
}

impl CoinType {
    /// The coin's identifier.
    pub fn name(&self) -> (r: &'static str)
        ensures
            r@ == coin_id(*self),
    {
        match self {
            CoinType::Bitcoin => "bitcoin",
            CoinType::Ethereum => "ethereum",
            CoinType::Solana => "solana",
            CoinType::Cardano => "cardano",
        }
    }
}

/// Where in the seed a coin's private scalar starts, for the coins that
/// have addresses: each takes its own 32 bytes.
pub open spec fn seed_offset(c: CoinType) -> Option<int> {
    match c {
        CoinType::Bitcoin => Some(0),
        CoinType::Ethereum => Some(32),
        _ => None,
    }
}

/// Width of the private scalar that a coin takes from the seed.
pub const SCALAR_LEN: usize = 32;

/// Width of a compressed public key.
pub const PUBLIC_KEY_LEN: usize = 33;

/// The bytes of the seed that a coin consumes.
pub open spec fn seed_slice(seed: Seq<u8>, c: CoinType) -> Seq<u8> {
    seed.subrange(seed_offset(c)->0, seed_offset(c)->0 + 32)
}

/// A coin's address for a compressed public key: `btc_` and the hex of its
/// first 20 bytes for Bitcoin, `0x` and the hex of the 20 bytes after the
/// prefix byte for Ethereum.
pub open spec fn address_text(c: CoinType, public_key: Seq<u8>) -> Seq<char> {
    match c {
        CoinType::Bitcoin => "btc_"@ + hex_text(public_key.subrange(0, 20)),
        CoinType::Ethereum => "0x"@ + hex_text(public_key.subrange(1, 21)),
        _ => Seq::empty(),
    }
}

/// The unsigned big-endian value of a byte string.
pub open spec fn be_value(b: Seq<u8>) -> nat
    decreases b.len(),
{
    if b.len() == 0 {
        0
    } else {
        be_value(b.drop_last()) * 256 + b.last() as nat
    }
}

/// The order of the secp256k1 group.
pub open spec fn secp256k1_order() -> nat {
    0xFFFFFFFFFFFFFFFFFFFFFFFFFFFFFFFEnat * 0x10000000000000000nat * 0x10000000000000000nat
        + 0xBAAEDCE6AF48A03BBFD25E8CD0364141nat
}

/// A private scalar of the curve: 32 bytes whose big-endian value is
/// neither zero nor as large as the group order.
pub open spec fn is_valid_scalar(b: Seq<u8>) -> bool {
    b.len() == 32 && 0 < be_value(b) < secp256k1_order()
}

/// Text of a twelve-word English phrase: lower case letters and spaces,
/// from 47 to 107 characters (twelve words of three to eight letters).
pub open spec fn is_twelve_word_text(s: Seq<char>) -> bool {
    &&& 47 <= s.len() <= 107
    &&& forall|i: int| 0 <= i < s.len() ==> ('a' <= #[trigger] s[i] <= 'z' || s[i] == ' ')
}

/// The hyphenated lower case text of a uuid: 36 characters, hyphens at 8,
/// 13, 18 and 23, lower case hex digits elsewhere.
pub open spec fn is_uuid_text(s: Seq<char>) -> bool {
    &&& s.len() == 36
    &&& forall|i: int|
        0 <= i < 36 ==> if i == 8 || i == 13 || i == 18 || i == 23 {
            #[trigger] s[i] == '-'
        } else {
            ('0' <= s[i] <= '9' || 'a' <= s[i] <= 'f')
        }
}

/// The compressed public key of a valid secp256k1 private scalar.
pub uninterp spec fn compressed_public_key_of(secret: Seq<u8>) -> Seq<u8>;

/// The English BIP39 phrase that encodes some entropy.
pub uninterp spec fn mnemonic_of(entropy: Seq<u8>) -> Seq<char>;

/// The 64-byte BIP39 seed of a phrase and a passphrase.
pub uninterp spec fn bip39_seed_of(phrase: Seq<char>, passphrase: Seq<char>) -> Seq<u8>;

/// Relies on `PublicKey::from_secret_key`, under a context from
/// `Secp256k1::new`, after `SecretKey::from_slice` accepts the bytes as a
/// scalar (it refuses any length but 32), and `PublicKey::serialize`: the
/// 33-byte compressed public key.
#[verifier::external_body]
fn public_key_for(secret: &[u8]) -> (r: Option<Vec<u8>>)
    ensures
        r is Some <==> is_valid_scalar(secret@),
        r matches Some(pk) ==> pk@ == compressed_public_key_of(secret@) && pk@.len()
            == PUBLIC_KEY_LEN,
{
    let secp = Secp256k1::new();
    SecretKey::from_slice(secret).ok().map(|sk| PublicKey::from_secret_key(&secp, &sk).serialize().to_vec())
}

/// Relies on `bip39::Mnemonic::from_entropy` and its `Display`: the English
/// phrase of the entropy, which 16 bytes always have: twelve words of the
/// English list, separated by single spaces.
#[verifier::external_body]
fn phrase_from_entropy(entropy: &[u8]) -> (r: Option<String>)
    ensures
        entropy@.len() == 16 ==> r is Some,
        r matches Some(p) ==> p@ == mnemonic_of(entropy@),
        r matches Some(p) ==> (entropy@.len() == 16 ==> is_twelve_word_text(p@)),
{
    bip39::Mnemonic::from_entropy(entropy).ok().map(|m| m.to_string())
}

/// Relies on `bip39::Mnemonic::to_seed`, after `Mnemonic::parse` reads the
/// phrase, which it does for every phrase that `from_entropy` made: the
/// 64-byte seed of the phrase and the passphrase.
#[verifier::external_body]
fn seed_from_phrase(phrase: &str, passphrase: &str) -> (r: Option<Vec<u8>>)
    ensures
        (exists|e: Seq<u8>| e.len() == 16 && phrase@ == #[trigger] mnemonic_of(e)) ==> r is Some,
        r matches Some(s) ==> s@ == bip39_seed_of(phrase@, passphrase@) && s@.len() == 64,
{
    bip39::Mnemonic::parse(phrase).ok().map(|m| m.to_seed(passphrase).to_vec())
}

/// Relies on `uuid::Uuid::new_v4` and its `Display`: a random identifier in
/// its hyphenated lower case text.
#[verifier::external_body]
fn new_wallet_id() -> (r: String)
    ensures
        is_uuid_text(r@),
{
    uuid::Uuid::new_v4().to_string()
}

/// Width of the seed that key material is taken from.
pub const SEED_LEN: usize = 64;

/// Width of the entropy behind a twelve-word phrase.
pub const ENTROPY_LEN: usize = 16;

/// Each address entry as a pair of texts: coin identifier, address.
pub open spec fn pairs_view(v: Seq<(String, String)>) -> Seq<(Seq<char>, Seq<char>)> {
    v.map_values(|p: (String, String)| (p.0@, p.1@))
}

/// Each string as its text.
pub open spec fn texts_view(v: Seq<String>) -> Seq<Seq<char>> {
    v.map_values(|s: String| s@)
}

/// The address entries derived for a list of coins from a seed: one per
/// coin, in the coins' order, each from the coin's own slice of the seed.
pub open spec fn addresses_for(coins: Seq<CoinType>, seed: Seq<u8>) -> Seq<(Seq<char>, Seq<char>)> {
    Seq::new(
        coins.len(),
        |i: int|
            (
                coin_id(coins[i]),
                address_text(coins[i], compressed_public_key_of(seed_slice(seed, coins[i]))),
            ),
    )
}

/// The coins that a new wallet supports.
pub open spec fn default_coins() -> Seq<CoinType> {
    seq![CoinType::Bitcoin, CoinType::Ethereum]
}

/// The address of the first entry for `coin`, if there is one.
pub open spec fn address_for(entries: Seq<(Seq<char>, Seq<char>)>, coin: Seq<char>) -> Option<Seq<char>>
    decreases entries.len(),
{
    if entries.len() == 0 {
        None
    } else if entries[0].0 == coin {
        Some(entries[0].1)
    } else {
        address_for(entries.drop_first(), coin)
    }
}

pub struct WalletView {
    pub id: Seq<char>,
    pub name: Seq<char>,
    pub seed_phrase: Seq<char>,
    pub encrypted_seed: Seq<char>,
    pub addresses: Seq<(Seq<char>, Seq<char>)>,
    pub coin_types: Seq<Seq<char>>,
    pub created_at: u64,
}

impl WalletView {
    /// Addresses and coin types in lockstep: one entry per coin, in order,
    /// and no coin twice.
    pub open spec fn well_formed(self) -> bool {
        &&& self.addresses.len() == self.coin_types.len()
        &&& forall|i: int|
            0 <= i < self.coin_types.len() ==> #[trigger] self.addresses[i].0 == self.coin_types[i]
        &&& forall|i: int, j: int|
            0 <= i < j < self.coin_types.len() ==> #[trigger] self.coin_types[i]
                != #[trigger] self.coin_types[j]
    }

    /// The record as it is kept: the same wallet with no phrase in it.
    pub open spec fn stored(self) -> WalletView {
        WalletView { seed_phrase: Seq::empty(), ..self }
    }

    /// The wallet with its phrase recovered from the sealed seed, if that
    /// opens under `password`.
    pub open spec fn unlocked(self, password: Seq<char>) -> Option<WalletView> {
        match opened(self.encrypted_seed, password) {
            Some(phrase) => Some(WalletView { seed_phrase: phrase, ..self }),
            None => None,
        }
    }

    /// What a newly made wallet is: named `name`, for the default coins with
    /// their addresses from the seed of its phrase and `password`, and with
    /// a sealed seed that opens to its phrase under `password`.
    pub open spec fn is_new_wallet(self, name: Seq<char>, password: Seq<char>) -> bool {
        &&& self.name == name
        &&& self.coin_types == default_coins().map_values(|c: CoinType| coin_id(c))
        &&& self.addresses == addresses_for(
            default_coins(),
            bip39_seed_of(self.seed_phrase, password),
        )
        &&& self.well_formed()
        &&& opened(self.encrypted_seed, password) == Some(self.seed_phrase)
    }
}

#[derive(Clone, Debug)]
pub struct Wallet {
    pub id: String,
    pub name: String,
    pub seed_phrase: String,
    pub encrypted_seed: String,
    pub addresses: Vec<(String, String)>,
    pub coin_types: Vec<String>,
    pub created_at: u64,
}

impl View for Wallet {
    type V = WalletView;

    open spec fn view(&self) -> WalletView {
        WalletView {
            id: self.id@,
            name: self.name@,
            seed_phrase: self.seed_phrase@,
            encrypted_seed: self.encrypted_seed@,
            addresses: pairs_view(self.addresses@),
            coin_types: texts_view(self.coin_types@),
            created_at: self.created_at,
        }
    }
}

impl Wallet {
    /// The address kept for a coin; `InvalidKeyError` where there is none.
    pub fn get_address(&self, coin_type: CoinType) -> (r: Result<String, WalletError>)
        ensures
            match address_for(self@.addresses, coin_id(coin_type)) {
                Some(a) => r matches Ok(s) && s@ == a,
                None => r matches Err(WalletError::InvalidKeyError(_)),
            },
    {
        let key = String::from_str(coin_type.name());
        match lookup_address(&self.addresses, &key) {
            Some(a) => Ok(a),
            None => {
                let mut msg = String::from_str("No address for coin type: ");
                msg.append(coin_type.name());
                Err(WalletError::InvalidKeyError(msg))
            },
        }
    }

    /// A stored wallet from the fields of its record, with no phrase. The
    /// addresses may come in any order; the wallet keeps them in the order
    /// of its coin types. A record that repeats a coin type or lacks the
    /// address of one is a `SerializationError`.
    pub fn from_record(
        id: String,
        name: String,
        encrypted_seed: String,
        entries: Vec<(String, String)>,
        coin_types: Vec<String>,
        created_at: u64,
    ) -> (r: Result<Wallet, WalletError>)
        ensures
            match record_addresses(pairs_view(entries@), texts_view(coin_types@)) {
                Some(addrs) => r matches Ok(w) && w@ == (WalletView {
                    id: id@,
                    name: name@,
                    seed_phrase: Seq::empty(),
                    encrypted_seed: encrypted_seed@,
                    addresses: addrs,
                    coin_types: texts_view(coin_types@),
                    created_at,
                }) && w@.well_formed(),
                None => r matches Err(WalletError::SerializationError(_)),
            },
    {
        let ghost coins = texts_view(coin_types@);
        let ghost es = pairs_view(entries@);
        let n = coin_types.len();
        let mut i: usize = 0;
        while i < n
            invariant
                n == coins.len(),
                coins == texts_view(coin_types@),
                i <= n,
                forall|a: int, b: int| 0 <= a < b < i ==> #[trigger] coins[a] != #[trigger] coins[b],
            decreases n - i,
        {
            let mut j: usize = 0;
            while j < i
                invariant
                    n == coins.len(),
                    coins == texts_view(coin_types@),
                    i < n,
                    j <= i,
                    forall|a: int| 0 <= a < j ==> #[trigger] coins[a] != coins[i as int],
                decreases i - j,
            {
                if coin_types[j] == coin_types[i] {
                    assert(coins[j as int] == coins[i as int]);
                    assert(!distinct_texts(coins));
                    return Err(
                        WalletError::SerializationError(String::from_str("Repeated coin type")),
                    );
                }
                j = j + 1;
            }
            i = i + 1;
        }
        assert(distinct_texts(coins));
        let mut addresses: Vec<(String, String)> = Vec::new();
        let mut k: usize = 0;
        while k < n
            invariant
                n == coins.len(),
                coins == texts_view(coin_types@),
                es == pairs_view(entries@),
                distinct_texts(coins),
                k <= n,
                addresses@.len() == k,
                forall|m: int| 0 <= m < k ==> (#[trigger] address_for(es, coins[m])) is Some,
                pairs_view(addresses@) == Seq::new(
                    k as nat,
                    |m: int| (coins[m], address_for(es, coins[m])->0),
                ),
            decreases n - k,
        {
            let ghost before = addresses@;
            assert(coins[k as int] == coin_types@[k as int]@);
            match lookup_address(&entries, &coin_types[k]) {
                Some(a) => {
                    let c = coin_types[k].clone();
                    addresses.push((c, a));
                    assert(pairs_view(addresses@)[k as int] == (coins[k as int], address_for(
                        es,
                        coins[k as int],
                    )->0));
                    assert(pairs_view(addresses@) =~= Seq::new(
                        (k + 1) as nat,
                        |m: int| (coins[m], address_for(es, coins[m])->0),
                    )) by {
                        assert forall|m: int| 0 <= m < k implies pairs_view(addresses@)[m] == (
                            coins[m],
                            address_for(es, coins[m])->0,
                        ) by {
                            assert(addresses@[m] == before[m]);
                            assert(pairs_view(before)[m] == Seq::new(
                                k as nat,
                                |m: int| (coins[m], address_for(es, coins[m])->0),
                            )[m]);
                        }
                    }
                },
                None => {
                    assert(address_for(es, coins[k as int]) is None);
                    assert(!has_all_addresses(es, coins));
                    let mut msg = String::from_str("Record has no address for coin: ");
                    msg.append(coin_types[k].as_str());
                    return Err(WalletError::SerializationError(msg));
                },
            }
            k = k + 1;
        }
        assert(has_all_addresses(es, coins));
        let w = Wallet {
            id,
            name,
            seed_phrase: String::new(),
            encrypted_seed,
            addresses,
            coin_types,
            created_at,
        };
        assert(w@.addresses =~= Seq::new(
            n as nat,
            |m: int| (coins[m], address_for(es, coins[m])->0),
        ));
        Ok(w)
    }

    /// The record to keep: this wallet with its phrase cleared.
    pub fn without_seed(self) -> (r: Wallet)
        ensures
            r@ == self@.stored(),
    {
        Wallet { seed_phrase: String::new(), ..self }
    }

    /// Restores the phrase of a stored wallet by opening its sealed seed;
    /// `EncryptionError` where that fails, as under a wrong password.
    pub fn unlock(self, password: &str) -> (r: Result<Wallet, WalletError>)
        ensures
            match self@.unlocked(password@) {
                Some(v) => r matches Ok(w) && w@ == v,
                None => r matches Err(WalletError::EncryptionError(_)),
            },
    {
        match decrypt_string(self.encrypted_seed.as_str(), password) {
            Ok(phrase) => Ok(Wallet { seed_phrase: phrase, ..self }),
            Err(_) => Err(WalletError::EncryptionError(String::from_str("Failed to decrypt seed"))),
        }
    }
}

/// The address of a coin for a compressed public key; nothing for a coin
/// without addresses or a key of the wrong width.
pub fn address_from_public_key(coin: CoinType, public_key: &[u8]) -> (r: Option<String>)
    ensures
        r is Some <==> seed_offset(coin) is Some && public_key@.len() == PUBLIC_KEY_LEN,
        r matches Some(a) ==> a@ == address_text(coin, public_key@),
{
    if public_key.len() != PUBLIC_KEY_LEN {
        return None;
    }
    match coin {
        CoinType::Bitcoin => {
            let mut a = String::from_str("btc_");
            a.append(encode_hex(&public_key[0..20]).as_str());
            Some(a)
        },
        CoinType::Ethereum => {
            let mut a = String::from_str("0x");
            a.append(encode_hex(&public_key[1..21]).as_str());
            Some(a)
        },
        _ => None,
    }
}

/// Every coin has addresses and its slice of the seed is a valid scalar.
pub open spec fn keys_valid(seed: Seq<u8>, coins: Seq<CoinType>) -> bool {
    forall|i: int|
        0 <= i < coins.len() ==> (#[trigger] seed_offset(coins[i])) is Some && is_valid_scalar(
            seed_slice(seed, coins[i]),
        )
}

/// No text occurs twice.
pub open spec fn distinct_texts(coins: Seq<Seq<char>>) -> bool {
    forall|a: int, b: int| 0 <= a < b < coins.len() ==> #[trigger] coins[a] != #[trigger] coins[b]
}

/// Every coin has an entry.
pub open spec fn has_all_addresses(
    entries: Seq<(Seq<char>, Seq<char>)>,
    coins: Seq<Seq<char>>,
) -> bool {
    forall|m: int| 0 <= m < coins.len() ==> (#[trigger] address_for(entries, coins[m])) is Some
}

/// The addresses of a record in the order of its coin types, where the
/// coin types are distinct and each has an entry.
pub open spec fn record_addresses(
    entries: Seq<(Seq<char>, Seq<char>)>,
    coins: Seq<Seq<char>>,
) -> Option<Seq<(Seq<char>, Seq<char>)>> {
    if distinct_texts(coins) && has_all_addresses(entries, coins) {
        Some(Seq::new(coins.len(), |m: int| (coins[m], address_for(entries, coins[m])->0)))
    } else {
        None
    }
}

/// The address of the first entry for `key`.
pub fn lookup_address(entries: &Vec<(String, String)>, key: &String) -> (r: Option<String>)
    ensures
        match address_for(pairs_view(entries@), key@) {
            Some(a) => r matches Some(s) && s@ == a,
            None => r is None,
        },
{
    let ghost all = pairs_view(entries@);
    let mut i: usize = 0;
    assert(all.subrange(0, all.len() as int) =~= all);
    while i < entries.len()
        invariant
            all == pairs_view(entries@),
            i <= all.len(),
            address_for(all, key@) == address_for(all.subrange(i as int, all.len() as int), key@),
        decreases entries.len() - i,
    {
        let ghost rest = all.subrange(i as int, all.len() as int);
        assert(rest[0] == all[i as int]);
        if entries[i].0 == *key {
            return Some(entries[i].1.clone());
        }
        assert(rest.drop_first() =~= all.subrange(i + 1, all.len() as int));
        i = i + 1;
    }
    None
}

/// Derives one address per coin, each from the coin's own 32-byte slice of
/// the seed. A coin without addresses gives `InvalidKeyError`; a slice that
/// is no valid private scalar gives `CryptoError`.
pub fn derive_addresses(seed: &[u8], coins: &[CoinType]) -> (r: Result<
    Vec<(String, String)>,
    WalletError,
>)
    requires
        seed@.len() == SEED_LEN,
    ensures
        r matches Ok(a) ==> pairs_view(a@) == addresses_for(coins@, seed@),
        (exists|i: int| 0 <= i < coins@.len() && (#[trigger] seed_offset(coins@[i])) is None) ==> r matches Err(
            WalletError::InvalidKeyError(_),
        ),
        r matches Err(e) ==> e is InvalidKeyError || e is CryptoError,
        (forall|i: int| 0 <= i < coins@.len() ==> (#[trigger] seed_offset(coins@[i])) is Some)
            ==> !(r matches Err(WalletError::InvalidKeyError(_))),
        keys_valid(seed@, coins@) ==> r is Ok,
        r matches Err(WalletError::CryptoError(_)) ==> !keys_valid(seed@, coins@),
{
    let mut i: usize = 0;
    while i < coins.len()
        invariant
            i <= coins@.len(),
            forall|j: int| 0 <= j < i ==> (#[trigger] seed_offset(coins@[j])) is Some,
        decreases coins@.len() - i,
    {
        match coins[i] {
            CoinType::Bitcoin | CoinType::Ethereum => {},
            _ => {
                assert(seed_offset(coins@[i as int]) is None);
                let mut msg = String::from_str("No key derivation for coin type: ");
                msg.append(coins[i].name());
                return Err(WalletError::InvalidKeyError(msg));
            },
        }
        i = i + 1;
    }
    let mut out: Vec<(String, String)> = Vec::new();
    let mut k: usize = 0;
    while k < coins.len()
        invariant
            seed@.len() == SEED_LEN,
            k <= coins@.len(),
            forall|j: int| 0 <= j < coins@.len() ==> (#[trigger] seed_offset(coins@[j])) is Some,
            out@.len() == k,
            pairs_view(out@) == addresses_for(coins@, seed@).subrange(0, k as int),
        decreases coins@.len() - k,
    {
        let coin = coins[k];
        assert(seed_offset(coins@[k as int]) is Some);
        let start: usize = match coin {
            CoinType::Bitcoin => 0,
            _ => SCALAR_LEN,
        };
        assert(seed@.subrange(start as int, start + 32) == seed_slice(seed@, coin));
        let pk = match public_key_for(&seed[start..start + SCALAR_LEN]) {
            Some(pk) => pk,
            None => {
                assert(!is_valid_scalar(seed_slice(seed@, coins@[k as int])));
                return Err(WalletError::CryptoError(String::from_str("Invalid secret key")));
            },
        };
        let address = match address_from_public_key(coin, pk.as_slice()) {
            Some(a) => a,
            None => {
                return Err(WalletError::CryptoError(String::from_str("Invalid public key")));
            },
        };
        let ghost old_out = out@;
        let id = String::from_str(coin.name());
        proof {
            assert(id@ == addresses_for(coins@, seed@)[k as int].0);
            assert(address@ == addresses_for(coins@, seed@)[k as int].1);
        }
        out.push((id, address));
        assert(out@ == old_out.push((id, address)));
        assert(pairs_view(out@) =~= addresses_for(coins@, seed@).subrange(0, k + 1)) by {
            assert forall|j: int| 0 <= j < k implies pairs_view(out@)[j] == pairs_view(old_out)[j] by {
                assert(out@[j] == old_out[j]);
            }
            assert(pairs_view(out@)[k as int] == (out@[k as int].0@, out@[k as int].1@));
            assert forall|j: int| 0 <= j < k implies pairs_view(old_out)[j] == addresses_for(
                coins@,
                seed@,
            )[j] by {
                assert(pairs_view(old_out)[j] == addresses_for(coins@, seed@).subrange(
                    0,
                    k as int,
                )[j]);
            }
        }
        k = k + 1;
    }
    assert(addresses_for(coins@, seed@).subrange(0, coins@.len() as int) =~= addresses_for(
        coins@,
        seed@,
    ));
    Ok(out)
}

/// Makes a wallet from given entropy: its phrase, the seed of that phrase
/// and `password`, the default coins' addresses from that seed, and the
/// phrase sealed under `password`.
pub fn wallet_from_entropy(
    id: String,
    name: &str,
    password: &str,
    entropy: &[u8],
    created_at: u64,
) -> (r: Result<Wallet, WalletError>)
    ensures
        r matches Ok(w) ==> w@.is_new_wallet(name@, password@) && w@.id == id@ && w@.created_at
            == created_at && w@.seed_phrase == mnemonic_of(entropy@),
        entropy@.len() == ENTROPY_LEN && keys_valid(
            bip39_seed_of(mnemonic_of(entropy@), password@),
            default_coins(),
        ) ==> r is Ok,
        r matches Err(e) ==> (e is CryptoError || e is EncryptionError) && !(entropy@.len()
            == ENTROPY_LEN && keys_valid(
            bip39_seed_of(mnemonic_of(entropy@), password@),
            default_coins(),
        )),
        r matches Ok(w) ==> (entropy@.len() == ENTROPY_LEN ==> is_twelve_word_text(w@.seed_phrase)),
        r matches Err(e) ==> (entropy@.len() == ENTROPY_LEN ==> e is CryptoError),
{
    let phrase = match phrase_from_entropy(entropy) {
        Some(p) => p,
        None => {
            return Err(WalletError::CryptoError(String::from_str("Invalid entropy")));
        },
    };
    if entropy.len() == ENTROPY_LEN {
        assert(phrase@ == mnemonic_of(entropy@));
    }
    let seed = match seed_from_phrase(phrase.as_str(), password) {
        Some(s) => s,
        None => {
            return Err(WalletError::CryptoError(String::from_str("Invalid mnemonic")));
        },
    };
    let coins: Vec<CoinType> = vec![CoinType::Bitcoin, CoinType::Ethereum];
    assert(coins@ =~= default_coins());
    assert(forall|i: int| 0 <= i < coins@.len() ==> (#[trigger] seed_offset(coins@[i])) is Some);
    let addresses = derive_addresses(seed.as_slice(), coins.as_slice())?;
    let phrase_text = phrase.as_str();
    let encrypted_seed = match encrypt_string(phrase_text, password) {
        Ok(e) => e,
        Err(_) => {
            proof {
                if entropy@.len() == ENTROPY_LEN {
                    assert(is_ascii_chars(phrase@));
                }
            }
            return Err(WalletError::EncryptionError(String::from_str("Failed to seal the seed")));
        },
    };
    let mut coin_types: Vec<String> = Vec::new();
    coin_types.push(String::from_str("bitcoin"));
    coin_types.push(String::from_str("ethereum"));
    let w = Wallet {
        id,
        name: String::from_str(name),
        seed_phrase: phrase,
        encrypted_seed,
        addresses,
        coin_types,
        created_at,
    };
    proof {
        reveal_strlit("bitcoin");
        reveal_strlit("ethereum");
        assert(w@.coin_types =~= default_coins().map_values(|c: CoinType| coin_id(c)));
        assert("bitcoin"@.len() == 7);
        assert("ethereum"@.len() == 8);
        assert(w@.coin_types[0] != w@.coin_types[1]);
    }
    Ok(w)
}

pub struct WalletManager {
    wallets_path: String,
}

impl WalletManager {
    /// The directory that holds the wallet files.
    pub closed spec fn wallets_dir(&self) -> Seq<char> {
        self.wallets_path@
    }

    /// A manager for the wallets under `wallets` in the configured data
    /// directory. The caller creates that directory.
    pub fn new(config: &AppConfig) -> (r: Result<WalletManager, WalletError>)
        ensures
            r matches Ok(m) && m.wallets_dir() == joined(config.data_dir@, "wallets"@),
    {
        Ok(WalletManager { wallets_path: join_path(config.data_dir.as_str(), "wallets") })
    }

    /// The directory that holds the wallet files.
    pub fn wallets_path(&self) -> (r: &str)
        ensures
            r@ == self.wallets_dir(),
    {
        self.wallets_path.as_str()
    }

    /// The file that holds the record of wallet `wallet_id`.
    pub fn wallet_path(&self, wallet_id: &str) -> (r: String)
        ensures
            r@ == joined(self.wallets_dir(), wallet_file_name_of(wallet_id@)),
    {
        let file = wallet_file_name(wallet_id);
        join_path(self.wallets_path.as_str(), file.as_str())
    }

    /// Generates a wallet for the default coins from fresh entropy, with a
    /// fresh random identifier and the current time. Its phrase is the one
    /// moment the caller sees the phrase; keeping the record is the
    /// caller's, through `seal_record`.
    pub fn generate_wallet(&self, name: &str, password: &str) -> (r: Result<Wallet, WalletError>)
        ensures
            r matches Ok(w) ==> w@.is_new_wallet(name@, password@) && exists|e: Seq<u8>|
                e.len() == ENTROPY_LEN && w@.seed_phrase == #[trigger] mnemonic_of(e),
            r matches Ok(w) ==> is_uuid_text(w@.id) && is_twelve_word_text(w@.seed_phrase),
            r matches Err(e) ==> e is CryptoError || e is IoError,
            r matches Err(WalletError::CryptoError(_)) ==> exists|e: Seq<u8>|
                e.len() == ENTROPY_LEN && !keys_valid(
                    #[trigger] bip39_seed_of(mnemonic_of(e), password@),
                    default_coins(),
                ),
    {
        let entropy = random_bytes(ENTROPY_LEN);
        let created_at = match unix_time_now() {
            Some(t) => t,
            None => {
                return Err(WalletError::IoError(String::from_str("System clock is before 1970")));
            },
        };
        let id = new_wallet_id();
        wallet_from_entropy(id, name, password, entropy.as_slice(), created_at)
    }

    /// Seals the text of a stored record under `password`.
    pub fn seal_record(&self, record: &str, password: &str) -> (r: Result<String, WalletError>)
        ensures
            r is Ok <==> record.spec_bytes().len() <= isize::MAX,
            r matches Ok(blob) ==> opened(blob@, password@) == Some(record@),
            r is Err ==> r matches Err(WalletError::EncryptionError(_)),
    {
        match encrypt_string(record, password) {
            Ok(blob) => Ok(blob),
            Err(_) => Err(WalletError::EncryptionError(String::from_str("Failed to seal the record"))),
        }
    }

    /// Opens the sealed record of wallet `wallet_id`, where the store had
    /// one: `WalletNotFound` where it had none, `EncryptionError` where the
    /// record does not open under `password`.
    pub fn open_record(&self, wallet_id: &str, stored: Option<&str>, password: &str) -> (r: Result<
        String,
        WalletError,
    >)
        ensures
            match stored {
                None => r matches Err(WalletError::WalletNotFound(m)) && m@ == wallet_id@,
                Some(blob) => match opened(blob@, password@) {
                    Some(text) => r matches Ok(s) && s@ == text,
                    None => r matches Err(WalletError::EncryptionError(_)),
                },
            },
    {
        match stored {
            None => Err(WalletError::WalletNotFound(String::from_str(wallet_id))),
            Some(blob) => match decrypt_string(blob, password) {
                Ok(text) => Ok(text),
                Err(_) => Err(
                    WalletError::EncryptionError(String::from_str("Failed to decrypt the record")),
                ),
            },
        }
    }

    /// The wallet ids among the names of the files in the wallet directory,
    /// in the order given.
    pub fn list_wallets(&self, file_names: &[String]) -> (r: Vec<String>)
        ensures
            texts_view(r@) == listed_ids(texts_view(file_names@)),
    {
        let mut out: Vec<String> = Vec::new();
        let mut i: usize = 0;
        while i < file_names.len()
            invariant
                i <= file_names@.len(),
                texts_view(out@) == listed_ids(texts_view(file_names@.subrange(0, i as int))),
            decreases file_names@.len() - i,
        {
            let ghost before = out@;
            let ghost names = texts_view(file_names@.subrange(0, i + 1));
            assert(names.drop_last() =~= texts_view(file_names@.subrange(0, i as int)));
            assert(names.last() == file_names@[i as int]@);
            match wallet_id_of_file(file_names[i].as_str()) {
                Some(id) => {
                    out.push(id);
                    assert(texts_view(out@) =~= texts_view(before).push(out@.last()@));
                },
                None => {},
            }
            i = i + 1;
        }
        assert(file_names@.subrange(0, file_names@.len() as int) =~= file_names@);
        out
    }
}

/// The name of the file that holds wallet `id`.
pub open spec fn wallet_file_name_of(id: Seq<char>) -> Seq<char> {
    id + ".json"@
}

/// A file name that holds a wallet: a non-empty id followed by `.json`.
pub open spec fn is_wallet_file(name: Seq<char>) -> bool {
    name.len() > 5 && name.subrange(name.len() - 5, name.len() as int) == ".json"@
}

/// The id in a wallet file's name.
pub open spec fn file_wallet_id(name: Seq<char>) -> Seq<char> {
    name.subrange(0, name.len() - 5)
}

/// The ids of the wallet files among `names`, in order.
pub open spec fn listed_ids(names: Seq<Seq<char>>) -> Seq<Seq<char>>
    decreases names.len(),
{
    if names.len() == 0 {
        Seq::empty()
    } else {
        let rest = listed_ids(names.drop_last());
        if is_wallet_file(names.last()) {
            rest.push(file_wallet_id(names.last()))
        } else {
            rest
        }
    }
}

/// The name of the file that holds wallet `wallet_id`.
pub fn wallet_file_name(wallet_id: &str) -> (r: String)
    ensures
        r@ == wallet_file_name_of(wallet_id@),
{
    let mut name = String::from_str(wallet_id);
    name.append(".json");
    name
}

/// The wallet id in a file name, if the file holds a wallet.
pub fn wallet_id_of_file(file_name: &str) -> (r: Option<String>)
    ensures
        r is Some <==> is_wallet_file(file_name@),
        r matches Some(id) ==> id@ == file_wallet_id(file_name@),
{
    proof {
        reveal_strlit(".json");
    }
    let n = file_name.unicode_len();
    if n <= 5 {
        return None;
    }
    let suffix = file_name.substring_char(n - 5, n).to_owned();
    let ext = String::from_str(".json");
    if suffix == ext {
        Some(file_name.substring_char(0, n - 5).to_owned())
    } else {
        None
    }
}

/// Two coins with addresses consume disjoint ranges of the seed, and their
/// addresses differ whatever keys they are made from.
pub proof fn lemma_coin_keys_independent(c1: CoinType, c2: CoinType, k1: Seq<u8>, k2: Seq<u8>)
    requires
        c1 != c2,
        seed_offset(c1) is Some,
        seed_offset(c2) is Some,
    ensures
        seed_offset(c1)->0 + 32 <= seed_offset(c2)->0 || seed_offset(c2)->0 + 32 <= seed_offset(
            c1,
        )->0,
        address_text(c1, k1) != address_text(c2, k2),
{
    reveal_strlit("btc_");
    reveal_strlit("0x");
    let a1 = address_text(c1, k1);
    let a2 = address_text(c2, k2);
    assert(a1[0] != a2[0]);
}

/// A wallet whose sealed seed opens to its phrase under `password`, as
/// every newly made wallet's does, comes back whole from its stored record.
pub proof fn lemma_stored_wallet_round_trip(w: WalletView, password: Seq<char>)
    requires
        opened(w.encrypted_seed, password) == Some(w.seed_phrase),
    ensures
        w.stored().unlocked(password) == Some(w),
{
}

/// Listing a directory that holds just the files of some wallets gives
/// back exactly their ids, in the directory's order.
pub proof fn lemma_listing_complete(ids: Seq<Seq<char>>)
    requires
        forall|i: int| 0 <= i < ids.len() ==> (#[trigger] ids[i]).len() > 0,
    ensures
        listed_ids(ids.map_values(|id: Seq<char>| wallet_file_name_of(id))) == ids,
    decreases ids.len(),
{
    reveal_strlit(".json");
    let names = ids.map_values(|id: Seq<char>| wallet_file_name_of(id));
    if ids.len() > 0 {
        let init = ids.drop_last();
        assert(names.drop_last() =~= init.map_values(|id: Seq<char>| wallet_file_name_of(id)));
        lemma_listing_complete(init);
        let last = names.last();
        assert(last == ids.last() + ".json"@);
        assert(last.subrange(last.len() - 5, last.len() as int) =~= ".json"@);
        assert(file_wallet_id(last) =~= ids.last());
        assert(ids =~= init.push(ids.last()));
    } else {
        assert(ids =~= Seq::<Seq<char>>::empty());
    }
}

/// Listing a directory that holds just the files of some generated wallets,
/// whose ids are uuid texts, gives back exactly their ids.
pub proof fn lemma_generated_wallets_listed(ids: Seq<Seq<char>>)
    requires
        forall|i: int| 0 <= i < ids.len() ==> is_uuid_text(#[trigger] ids[i]),
    ensures
        listed_ids(ids.map_values(|id: Seq<char>| wallet_file_name_of(id))) == ids,
{
    assert forall|i: int| 0 <= i < ids.len() implies (#[trigger] ids[i]).len() > 0 by {
        assert(is_uuid_text(ids[i]));
    }
    lemma_listing_complete(ids);
}

} // verus!
