//! The filesystem inside a container.
pub mod blocks;
pub mod coffer;
pub mod faults;
pub mod laws;
pub mod lemmas;
pub mod make;
pub mod operation;
pub mod query;
pub mod read;
pub mod readdir;
pub mod remove;
pub mod rename;
pub mod setattr;
pub mod tables;
pub mod types;
pub mod wellformed;
pub mod write;
pub mod xattr;
