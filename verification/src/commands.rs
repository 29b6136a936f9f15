//! The tool's command surface, as plain data: the command settings and the
//! trait their runners implement. Running a command reads and writes the
//! filesystem, so the runners live with the surrounding program; the types
//! here carry the settings the verified library works from.

use vstd::prelude::*;

verus! {

/// A runnable command.
pub trait Command {
    /// The error a failed run reports.
    type Err;

    /// Performs the command's work.
    fn execute(&self) -> Result<(), Self::Err>;
}

/// Settings of the theme building command. It has none: the builders are
/// read from their own configuration.
pub struct BuildThemeCommand {}

/// Settings of the conversion command.
pub struct Cosmic2NixCommand {
    /// The XDG directories to search for configurations.
    pub xdg_dirs: Vec<String>,
    /// The file to write the document to; standard output when absent.
    pub output_file: Option<String>,
}

/// The commands the tool offers.
pub enum Commands {
    /// Build light and dark themes using builder settings.
    BuildTheme(BuildThemeCommand),
    /// Convert the desktop environment's configurations to a Nix document.
    Cosmic2Nix(Cosmic2NixCommand),
}

} // verus!
