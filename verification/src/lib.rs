//! Core of a federated Chaumian e-cash mint.
//!
//! Two subsystems: the client-side federation query engine, which fans a
//! request out to every peer and reduces the responses through a pluggable
//! strategy while tolerating up to `f = (n - 1) / 3` faulty peers, and the
//! server-side mint module, which validates spend inputs against a persistent
//! nonce set, produces threshold blind-signature shares for issuance outputs,
//! and keeps an auditable ledger of issued and redeemed value.

pub mod peers;
pub mod collections;
pub mod text;
pub mod time;
pub mod query;
pub mod version;
pub mod amount;
pub mod db;
pub mod crypto;
pub mod mint;
pub mod config;
pub mod encoding;
