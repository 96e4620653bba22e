//! The command line: one subcommand per entrypoint.

use vstd::prelude::*;

verus! {

/// Hop to any visible Herdr pane by label.
#[derive(Debug, Clone, Copy, PartialEq, Eq, Structural)]
pub struct Cli {
    pub command: Command,
}

/// The entrypoints.
#[derive(Debug, Clone, Copy, PartialEq, Eq, Structural)]
pub enum Command {
    /// Action entrypoint: label the visible panes and open the picker popup.
    Jump,
    /// Popup entrypoint: paint labels, read one keystroke, and jump. Runs inside the popup pane.
    Pick,
}

} // verus!
