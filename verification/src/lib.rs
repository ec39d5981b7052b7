//! A personal encrypted journal library.
//!
//! A user authenticates with a password; dated plain-text entries are edited
//! in a line-oriented buffer and persisted as individually encrypted records
//! addressed by `(user, year, month, day, index)`.
//!
//! The crate is organised leaves-first:
//! - [`num`]: decimal digit strings (parsing, formatting, numeric order);
//! - [`text`]: character sequences, UTF-8 decoding and line splitting;
//! - [`row`] and [`document`]: the in-memory multi-line text buffer;
//! - [`crypto`]: password-based key derivation and authenticated encryption;
//! - [`keychain`]: per-user salts and password hashes;
//! - [`paths`]: the on-disk addressing scheme (paths and file names);
//! - [`listing`]: numerically ordered directory listings;
//! - [`store`]: the encryption-addressed log store;
//! - [`editor`]: keystroke interpretation and the save/exit protocol;
//! - [`worker`]: the persistence worker consuming save/exit messages.

pub mod num;
pub mod text;
pub mod row;
pub mod document;
pub mod crypto;
pub mod keychain;
pub mod paths;
pub mod listing;
pub mod store;
pub mod editor;
pub mod worker;
