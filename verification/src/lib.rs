//! Clipboard history for Linux: the verified core.
pub mod text;
pub mod num;
pub mod util;
pub mod image;
pub mod settings;
pub mod paths;
pub mod db;
pub mod history;
pub mod store;
pub mod ipc;
pub mod daemon;
pub mod clip;
pub mod cli;
pub mod ui;
pub mod hotkey;
pub mod doctor;
