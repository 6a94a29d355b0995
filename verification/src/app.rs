//! The manager's commands, as plain data.  The command-line front end parses
//! its arguments into these and hands them to the library's operations.

use vstd::prelude::*;

verus! {

/// One invocation of the manager.
#[derive(Debug, Clone)]
pub enum App {
    /// Add a game: its name, its main folder, and optionally its data folder
    /// (relative to the game folder), its master plugins file, and its
    /// executable.
    Init {
        name: String,
        game_folder: String,
        data: Option<String>,
        plugins: Option<String>,
        exe: Option<String>,
    },
    /// Run a full deploy pass.
    Go,
    /// Add mod archives to the active game, moving instead of copying when
    /// `take_files` is set.
    Add { archives: Vec<String>, take_files: bool, enable: bool },
    /// Watch a folder for new downloads and add them.
    Watch { folder: Option<String>, enable: bool },
    /// Enable mods by selector, or all of them.
    Enable { names: Vec<String>, all: bool },
    /// Disable mods by selector, or all of them.
    Disable { names: Vec<String>, all: bool },
    /// List all mods.
    Mods,
    /// List all enabled plugins.
    Plugins,
    /// Move a mod in the load order.
    Move { name: String, sub: MoveSubcommand },
    /// Uninstall mods, optionally deleting their archives.
    Uninstall { names: Vec<String>, delete_archives: bool, all: bool },
    /// Manage profiles.
    Profile { sub: Option<ProfileSubcommand> },
    /// Set the active game.
    SetActive { name: String },
    /// Name the active game.
    Active,
    /// Open the active game's archive store.
    Archives,
    /// Open the active game's main folder.
    GameFolder,
    /// Run the game's executable.
    Run,
}

/// Where a moved mod goes in the load order.
#[derive(Debug, Clone)]
pub enum MoveSubcommand {
    /// Immediately before the other mod.
    Above { name: String },
    /// Immediately after the other mod.
    Below { name: String },
    /// To the front of the load order.
    Top,
    /// To the back of the load order.
    Bottom,
    /// Down a number of spots (one if unspecified), stopping at the bottom.
    Down { n: Option<usize> },
    /// Up a number of spots (one if unspecified), stopping at the top.
    Up { n: Option<usize> },
}

/// Profile management commands.
#[derive(Debug, Clone)]
pub enum ProfileSubcommand {
    /// Create a profile and save the current mod list to it.
    New { name: String },
    /// Save the current profile.
    Save,
    /// Switch to a profile, optionally disabling mods new to it.
    Switch { name: String, disable_new: bool },
}

} // verus!
