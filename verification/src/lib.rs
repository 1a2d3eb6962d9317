//! Inspection and anomaly detection for the transaction-output store of a Snap-Coin node.

pub mod alert_laws;
pub mod amounts;
pub mod answer_laws;
pub mod api;
pub mod buckets;
pub mod cli;
pub mod codec;
pub mod counting;
pub mod db;
pub mod events;
pub mod index;
pub mod inspect;
pub mod intelligence;
pub mod json;
pub mod key_laws;
pub mod keys;
pub mod laws;
pub mod lines;
pub mod model;
pub mod outputs;
pub mod print_laws;
pub mod rank;
pub mod reply_laws;
pub mod rules;
pub mod scan_laws;
pub mod scanner;
pub mod sentinel;
pub mod store;
pub mod tally;
pub mod text;
pub mod utxos;
pub mod wallet_laws;
pub mod wallet_stats;
pub mod ws;
