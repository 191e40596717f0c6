//! The core of a local secret broker: what its vault, its broker process and its clients decide.
//!
//! Secrets are kept in profiles. A profile that is unlocked is held for a limited time
//! ([`session`]); a command that a manifest ([`manifest`]) names secrets for receives them on
//! standard input, in environment variables or on file descriptors ([`delivery`]). [`broker`] joins
//! the two. A stored secret can be compared with an expected one by a keyed fingerprint
//! ([`fingerprint`]). Reading and writing files, sockets and terminals is left to the program
//! around this library.

pub mod broker;
pub mod cli;
pub mod clock;
pub mod delivery;
pub mod error;
pub mod fingerprint;
pub mod gui;
pub mod manifest;
pub mod name_map;
pub mod names;
pub mod render;
pub mod secret;
pub mod session;
pub mod text;
pub mod vault;
