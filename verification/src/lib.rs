//! The decision core of a coinswap wallet.

pub mod amounts;
pub mod cache;
pub mod chain;
pub mod checks;
pub mod coin_selector;
pub mod coins;
pub mod coins_laws;
pub mod confirm;
pub mod descriptors;
pub mod descriptors_laws;
pub mod error;
pub mod funding;
pub mod funding_laws;
pub mod keys;
pub mod listing;
pub mod listing_laws;
pub mod payment;
pub mod pile;
pub mod pile_laws;
pub mod recovery;
pub mod recovery_laws;
pub mod requests;
pub mod rpc;
pub mod selection;
pub mod signing;
pub mod signing_laws;
pub mod spend;
pub mod spend_laws;
pub mod splits;
pub mod store;
pub mod swapcoin;
pub mod sweep;
pub mod sweep_laws;
pub mod sync;
pub mod table;
pub mod text;
pub mod transactions;
pub mod transactions_laws;
pub mod types;
pub mod utxo;
pub mod wallet;
pub mod wallet_laws;
pub mod watch;
