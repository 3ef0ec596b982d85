//! Named multi-field credential records with masked display, and the
//! menu-driven workflows that store and retrieve them.
//!
//! A record ([`secret::Secret`]) holds fields ([`field::Field`]); a field
//! whose key names a password, a secret or a token is masked wherever it is
//! listed. The workflows ([`store::Store`], [`retrieve::Retrieve`]) decide
//! what is asked of the picker ([`fuzzel`]) and of the storage backend
//! ([`secrets`]) and in which order; they do no input or output themselves.

pub mod error;
pub mod field;
pub mod fuzzel;
pub mod order;
pub mod retrieve;
pub mod secret;
pub mod secrets;
pub mod store;
pub mod text;
pub mod workflow;
