//! Passphrase-protected export and import of a vault of SSH hosts.
//!
//! A [`models::Vault`] is a list of groups and a list of hosts. The crate
//! writes a vault as canonical JSON ([`codec`]), seals it with AES-256-GCM
//! under a key that Argon2id derives from a passphrase ([`crypto`]), wraps
//! the result in a versioned envelope ([`envelope`]), and reverses each step
//! on import ([`import`]). It merges an imported vault into the one already
//! loaded ([`merge`]), and builds the arguments for `ssh` ([`ssh`]).
//!
//! What is believed of outside code, and not proved, stands in
//! [`primitives`].

pub mod codec;
pub mod crypto;
pub mod envelope;
pub mod error;
pub mod import;
pub mod json;
pub mod merge;
pub mod models;
pub mod primitives;
pub mod session;
pub mod ssh;
pub mod text;
