//! The commands of the package manager's command line.
use vstd::prelude::*;

verus! {

/// A top-level command.
#[derive(Debug)]
pub enum Commands {
    Install { name: String },
    Remove { name: String },
    Reinstall { name: String },
    List,
    Search { query: String },
    Update { only: Option<String> },
    CleanCache,
    Repo(RepoCommands),
}

/// A command on the repository registry.
#[derive(Debug)]
#[allow(inconsistent_fields)]
pub enum RepoCommands {
    Add { url: String, name: Option<String>, key: Option<String> },
    Remove { name: String },
    List,
    UpdateKeys,
    Verify { name: String },
}

/// The parsed command line.
#[derive(Debug)]
pub struct Args {
    pub command: Commands,
}

impl Commands {
    /// Whether the command changes the tracking database.
    pub fn changes_tracker(&self) -> (r: bool)
        ensures
            r == (self is Install || self is Remove || self is Reinstall || self is Update),
    {
        match self {
            Commands::Install { .. } | Commands::Remove { .. } | Commands::Reinstall { .. }
            | Commands::Update { .. } => true,
            _ => false,
        }
    }
}

} // verus!
