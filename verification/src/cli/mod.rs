//! What the commands decide.
pub mod arguments;
pub mod commands;
pub mod integrity;
pub mod menu;
pub mod password;
pub mod table;
pub mod unmount;
pub mod watch;
