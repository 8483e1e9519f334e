//! What holds of the registry as a whole.
pub mod changes;
pub mod form;
pub mod lines;
pub mod reading;
pub mod register;
pub mod remove;
pub mod rendered;
pub mod settings;
pub mod writing;
pub mod written;
