//! What the calls do to a container, one by one and taken together.
pub mod atomic;
pub mod content;
pub mod effects;
pub mod entries;
pub mod failures;
pub mod fresh;
pub mod listing;
pub mod make;
pub mod privileges;
pub mod query;
pub mod read;
pub mod refusals;
pub mod remove;
pub mod rename;
pub mod setattr;
pub mod xattr;
