//! End-to-end encrypted synchronisation of notes.
//!
//! A seed phrase yields one symmetric key and one signing key pair. Each note
//! travels as an authenticated, signed envelope; a synchronisation pass
//! encrypts the local notes, exchanges them with the endpoint under a bounded
//! retry policy, and merges what comes back.

pub mod crypto;
pub mod merge;
pub mod note_format;
pub mod primitives;
pub mod sync;
pub mod text;
pub mod types;
