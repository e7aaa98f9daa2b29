//! ThunderTray: the verified core of a system-tray companion for Thunderbird.
//!
//! The library holds the decisions and text processing of the tray daemon:
//! configuration validation, Thunderbird profile discovery, unread-count
//! extraction from Thunderbird's folder cache and mbox files, command
//! splitting, icon badge layout and the daemon's event loops as state machines.

pub mod cli;
pub mod config;
pub mod icon;
pub mod installer;
pub mod kwin_script;
pub mod mork;
pub mod path;
pub mod settings;
pub mod text;
pub mod thunderbird;
pub mod tray;
pub mod watcher;
pub mod window;
