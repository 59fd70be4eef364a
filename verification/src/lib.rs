//! A two-party encrypted chat: command-line parsing, frame encoding, the
//! key-exchange handshake and the message rules, verified with Verus.

pub mod types;

pub mod cli;
pub mod frame;
pub mod crypto;
pub mod handshake;
pub mod chat;
