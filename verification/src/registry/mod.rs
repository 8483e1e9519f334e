//! The per-user vault registry: a file of sections, one for each vault.
//!
//! ```text
//! [work]
//! file = /home/me/.coffer/work.coffer
//! mountpoint = /home/me/vault
//! idle_timeout = 30m
//! ```
//!
//! The section's name is the vault's alias. The file is kept line by line, so
//! that one section can be rewritten while every other line, comments
//! included, stays exactly as it was.
pub mod config;
pub mod laws;
pub mod vault;
