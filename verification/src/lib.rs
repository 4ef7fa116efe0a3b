//! An encrypted store of secrets that lives in a version-controlled working tree.

pub mod account;
pub mod crypto;
pub mod document;
pub mod encoding;
pub mod error;
pub mod git_creds;
pub mod git_db;
pub mod laws;
pub mod manifest;
pub mod nonce;
pub mod render;
pub mod secret_meta;
pub mod state;
pub mod sync;
pub mod term_graphics;
pub mod tree;
