//! Role-based authorization core with a secret-protection layer.
//!
//! The crate keeps two relations in memory — permission grants
//! `(role, object, action)` and role assignments `(user, role)` — and answers
//! authorization queries over them; grants are validated against a fixed
//! permission catalog.  A separate cipher turns secrets into hex-encoded
//! authenticated ciphertext under one process-wide key.

pub mod catalog;
pub mod cipher;
pub mod enforcer;
pub mod error;
pub mod grants;
pub mod hex;
pub mod laws;
pub mod roles;
pub mod service;
pub mod store;
pub mod text;
