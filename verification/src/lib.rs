//! Growable encrypted containers that are mounted as ordinary directories.
pub mod cli;
pub mod container;
pub mod fs;
pub mod mounts;
pub mod paths;
pub mod registry;
pub mod sizes;
pub mod text;
