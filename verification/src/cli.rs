//! The command line: an optional subcommand; without one the tray daemon runs.

use vstd::prelude::*;

verus! {

/// The parsed command line.
pub struct Cli {
    pub command: Option<Command>,
}

/// The subcommands.
#[derive(Debug, Clone, Copy, PartialEq, Eq, Structural)]
pub enum Command {
    /// Install ThunderTray binary and systemd user service
    Install,
    /// Uninstall ThunderTray while preserving configuration
    Uninstall {
        /// Also remove ~/.config/thundertray
        purge: bool,
    },
    /// Open the settings dialog
    Settings,
    /// Show ThunderTray status
    Status,
}

} // verus!
