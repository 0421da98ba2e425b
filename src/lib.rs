//! A local encrypted secret store: the vault's data model, the in-memory
//! repository operations over it, and the sealed envelope that protects it
//! at rest under a master password.
pub mod crypto;
pub mod envelope;
pub mod error;
pub mod json_bytes;
pub mod model;
pub mod repository;
pub mod store;
