//! Client-side core of a private end-to-end encrypted mailbox.
pub mod b64;
pub mod bytes;
pub mod conversation;
pub mod encoding;
pub mod envelope;
pub mod error;
pub mod file;
pub mod identity;
pub mod json;
pub mod kdf;
pub mod mailbox;
pub mod paths;
pub mod primitives;
pub mod publish;
pub mod receiving;
pub mod sending;
pub mod session;
pub mod skipped;
pub mod text;
pub mod upload;
pub mod x3dh;
