//! The container file: how it is created, keyed and opened.
pub mod key;
pub mod plan;
pub mod sql;
