//! Application settings and the layout of the data directory.

use vstd::prelude::*;
use vstd::string::*;

verus! {

/// `name` placed under directory `dir`, as a path join gives it: no
/// separator after an empty or slash-terminated directory.
pub open spec fn joined(dir: Seq<char>, name: Seq<char>) -> Seq<char> {
    if dir.len() == 0 {
        name
    } else if dir.last() == '/' {
        dir + name
    } else {
        dir + "/"@ + name
    }
}

/// Joins a relative name onto a directory path.
pub fn join_path(dir: &str, name: &str) -> (r: String)
    ensures
        r@ == joined(dir@, name@),
{
    let n = dir.unicode_len();
    let mut out = String::from_str(dir);
    if n > 0 && dir.get_char(n - 1) != '/' {
        out.append("/");
    }
    out.append(name);
    out
}

/// Name of the directory, under the home directory, that holds the data.
pub const DATA_DIR_NAME: &'static str = ".safecoin-wallet";

/// Minutes of inactivity after which a session locks, by default.
pub const DEFAULT_AUTO_LOCK_MINUTES: u32 = 15;

#[derive(Clone, Debug)]
pub struct AppConfig {
    pub data_dir: String,
    pub btc_api_url: String,
    pub eth_api_url: String,
    pub enable_testnet: bool,
    pub enable_2fa: bool,
    pub auto_lock_minutes: u32,
    pub supported_coins: Vec<String>,
}

/// Relies on `dirs::home_dir`: the user's home directory as text, where the
/// platform reports one.
#[verifier::external_body]
fn home_dir_text() -> (r: Option<String>) {
    dirs::home_dir().map(|p| p.to_string_lossy().into_owned())
}

impl AppConfig {
    /// The default settings for a given home directory: data under
    /// `.safecoin-wallet` there, testnet on, no second factor, a 15-minute
    /// lock, and Bitcoin and Ethereum.
    pub fn for_home(home: &str) -> (r: AppConfig)
        ensures
            r.data_dir@ == joined(home@, DATA_DIR_NAME@),
            r.btc_api_url@.len() == 0,
            r.eth_api_url@.len() == 0,
            r.enable_testnet,
            !r.enable_2fa,
            r.auto_lock_minutes == DEFAULT_AUTO_LOCK_MINUTES,
            r.supported_coins@.len() == 2,
            r.supported_coins@[0]@ == "bitcoin"@,
            r.supported_coins@[1]@ == "ethereum"@,
    {
        let mut coins: Vec<String> = Vec::new();
        coins.push(String::from_str("bitcoin"));
        coins.push(String::from_str("ethereum"));
        AppConfig {
            data_dir: join_path(home, DATA_DIR_NAME),
            btc_api_url: String::new(),
            eth_api_url: String::new(),
            enable_testnet: true,
            enable_2fa: false,
            auto_lock_minutes: DEFAULT_AUTO_LOCK_MINUTES,
            supported_coins: coins,
        }
    }
}

impl Default for AppConfig {
    /// The default settings under the user's home directory, or under the
    /// working directory where there is none.
    fn default() -> (r: AppConfig)
        ensures
            exists|home: Seq<char>| r.data_dir@ == #[trigger] joined(home, DATA_DIR_NAME@),
            r.enable_testnet,
            !r.enable_2fa,
            r.auto_lock_minutes == DEFAULT_AUTO_LOCK_MINUTES,
            r.supported_coins@.len() == 2,
    {
        match home_dir_text() {
            Some(home) => AppConfig::for_home(home.as_str()),
            None => AppConfig::for_home("."),
        }
    }
}

} // verus!
