//! A token-economy ledger: identity-derived accounts, a daily issuance
//! quota, an escrow lock-to-reward conversion and a two-party
//! commit-reveal connection protocol, with every transition verified.

pub mod hashing;
pub mod state;
pub mod issuance;
pub mod connection;
pub mod ledger;
