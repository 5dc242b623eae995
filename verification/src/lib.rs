pub mod collector;
pub mod config;
pub mod daemon;
pub mod history;
pub mod ipc;
pub mod launchd;
pub mod text;
pub mod tui;
