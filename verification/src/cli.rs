//! The command line of the note store.

use vstd::prelude::*;

verus! {

/// What the command line asked for.
#[derive(Debug, PartialEq)]
pub struct Cli {
    /// A configuration file to use in place of the default one.
    pub config: Option<String>,
    pub command: Option<Commands>,
}

/// The subcommands.
#[derive(Debug, PartialEq)]
pub enum Commands {
    /// Creates a new note.
    New { name: String },
    /// Creates a backup of the store.
    Backup,
    /// Searches through the notes.
    Search { query: Option<String> },
}

impl Cli {
    /// The query to run, where the command line asks for a search: the
    /// query given, or the empty query, which keeps every note.
    pub fn search_query(&self) -> (r: Option<String>)
        ensures
            match self.command {
                Some(Commands::Search { query: Some(q) }) => r is Some && r->0@ == q@,
                Some(Commands::Search { query: None }) => r is Some && r->0@.len() == 0,
                _ => r is None,
            },
    {
        match &self.command {
            Some(Commands::Search { query: Some(q) }) => Some(q.clone()),
            Some(Commands::Search { query: None }) => Some(String::new()),
            _ => None,
        }
    }
}

} // verus!
