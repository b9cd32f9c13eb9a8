//! Password-protected key envelopes and field-level encryption for a local
//! password and contact vault.

pub mod crypto;
pub mod text;
pub mod key_envelope;
pub mod field;
pub mod records;
pub mod session;
