//! An encrypted, password-protected vault of cryptocurrency wallets: key
//! material generation, password-based sealing of stored records, and an
//! optional time-based second factor.

pub mod blockchain;
pub mod cipher;
pub mod config;
pub mod hexcode;
pub mod security;
pub mod wallet;
