pub mod bytes;
pub mod codec;
pub mod crypto;
pub mod error;
pub mod key_manager;
pub mod key_store;
pub mod keys;
pub mod laws;
pub mod listing;
pub mod plaintext;
