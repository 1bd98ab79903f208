//! The secure envelope: key exchange and key derivation, authenticated
//! encryption, signatures, and the sealing and opening built on them. No
//! relay can read or forge what only the sender and the receiver hold keys
//! for.

pub mod encryption;
pub mod error;
pub mod key_exchange;
pub mod secure_comm;
pub mod signature;
