//! The command-line interface's commands, as plain data.
use vstd::prelude::*;

verus! {

/// A parsed command line.
pub struct Cli {
    pub command: Commands,
}

/// The top-level commands.
pub enum Commands {
    /// Create or edit a song.
    Song(SongArgs),
    /// Tag operations.
    Tag { tag: String },
    /// Export a playlist of the songs that meet conditions such as `energy>=7`.
    Export { tags: Vec<String> },
}

/// The arguments of the `song` command.
pub struct SongArgs {
    pub path: String,
    pub action: Option<SongSubcommand>,
}

/// What the `song` command does.
pub enum SongSubcommand {
    /// Set values given as `name=value`.
    Tag { tags: Vec<String> },
    /// Add a song by its path.
    Add { path: String },
    /// Remove a song by its path.
    Remove { path: String },
}

} // verus!
