//! A peer-to-peer gossip relay for short authored lines of text.
//!
//! A running relay periodically exchanges signed JSON payloads with a small
//! set of mutually trusted peers. Each relay contributes one new line per
//! period and forwards lines received from peers, bounded by a time-to-live.
//! Trust is anchored in long-lived Ed25519 identities; every signature is
//! computed over the canonical JSON bytes of the subtree it authenticates.

pub mod crypto;
pub mod message;
pub mod wire;
pub mod scan;
pub mod parse;
pub mod payload;
pub mod archive;
pub mod lines;
pub mod mailroom;
pub mod config;
pub mod exchange;
