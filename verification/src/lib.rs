//! Vanity address mining: prefix rules, key encodings and the per-attempt
//! decisions of a brute-force search for public keys with chosen prefixes.

pub mod matcher;
pub mod text;
pub mod config;
pub mod encoding;
pub mod backend;
pub mod miner;
pub mod reporter;
