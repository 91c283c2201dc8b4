//! EdisonDB: a sovereign, owner-first record store with an encrypted payload
//! envelope, a small statement language (EQL) and a Raft consensus core.

pub mod clock;
pub mod crypto;
pub mod embedding;
pub mod eql;
pub mod executor;
pub mod invariants;
pub mod mobile;
pub mod raft;
pub mod render;
pub mod requests;
pub mod sovereign_embed;
pub mod store;
pub mod text;
pub mod vector_index;
pub mod wire;

pub use crypto::{decrypt_payload, derive_key, encrypt_payload};
pub use store::{AuditAction, AuditEntry, DataTier, EdisonError, Record, Store};
