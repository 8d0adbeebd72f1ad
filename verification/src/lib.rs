//! Account identifiers of the Internet Computer ledger and what is known of
//! the accounts in a registry: how an identifier is derived from a principal
//! and checked, how the rewards of node providers add up, which queries
//! gather an account's transactions, and how the roster, the declarations
//! and the documents on file are merged.
//!
//! The library computes and decides; it fetches nothing. Callers make the
//! queries and read the files, and hand over what came of them.

pub mod account;
pub mod digest;
pub mod documents;
pub mod entity;
pub mod hex_text;
pub mod icp;
pub mod principal;
pub mod reconcile;
pub mod rewards;
pub mod text;
pub mod text_map;
pub mod transactions;
