//! Shared settlement among untrusted parties: an escrow ledger of per-participant
//! obligations and payments, a time-boxed dispute vote, reusable split templates,
//! and the identifier and share-validation utilities they share.

mod keyed;

pub mod dispute;
pub mod dispute_store;
pub mod dispute_types;
pub mod escrow;
pub mod hex;
pub mod ident;
pub mod template;
pub mod template_store;
pub mod template_types;
