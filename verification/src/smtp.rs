//! Minimal ESMTP server that accepts mail into the void.
//!
//! The parts that decide: cutting the byte stream into lines, reading commands,
//! and the session that answers them. Whoever drives a session moves the bytes,
//! performs the TLS handshake, looks credentials up and stores the messages.

pub mod command;
pub mod connection;
pub mod dialogue;
pub mod laws;
pub mod line;
pub mod session;
