//! A two-party encrypted chat core: a Diffie-Hellman key exchange over a
//! byte-oriented transport, followed by a symmetric stream cipher driven by a
//! linear-congruential keystream generator.
//!
//! The transport itself (listening, dialing, blocking reads and writes) is a
//! collaborator outside this crate: callers hand the bytes they read to the
//! handshake and session functions and send back the bytes those return.
//! Alongside the chat core, `hexutil` holds the text parsing of the small
//! hex file tool built on the same command line.

pub mod cipher;
pub mod handshake;
pub mod hexutil;
pub mod keystream;
pub mod modexp;
pub mod session;

pub use keystream::Lcg;
pub use modexp::mod_pow;
