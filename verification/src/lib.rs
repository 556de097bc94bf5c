//! SMTPVoid: an SMTP black hole for testing mail submission.
//!
//! This crate is the logic of the server: the SMTP session, the self-expiring
//! mailboxes, the settings, the certificate policy, the pages and the mail API.
//! It performs no I/O of its own; a program around it moves bytes between
//! sockets, the database and these functions.

pub mod acme;
pub mod bytes;
pub mod cli;
pub mod cli_laws;
pub mod config;
pub mod config_laws;
pub mod db;
pub mod der;
pub mod der_laws;
pub mod encoding;
pub mod encoding_laws;
pub mod listeners;
pub mod mailbox_laws;
pub mod mailstore;
pub mod mib;
pub mod mib_laws;
pub mod mime;
pub mod password;
pub mod random;
pub mod settings;
pub mod settings_laws;
pub mod smtp;
pub mod state;
pub mod state_laws;
pub mod tally;
pub mod text;
pub mod text_laws;
pub mod textmap;
pub mod tls;
pub mod web;
