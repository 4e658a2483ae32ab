//! Command-line contracts: prefixes, outputs, argument quoting and command history.

use vstd::prelude::*;

use crate::ids::CommandId;
use crate::resource::{Location, ResourceRef};

verus! {

#[derive(Clone, Debug, PartialEq, Eq)]
pub struct CommandPrefixDescriptor {
    pub name: String,
    pub description: String,
}

#[derive(Clone, Debug, PartialEq, Eq)]
pub struct ExtensionCommandPrefix {
    pub prefix: CommandPrefixDescriptor,
    pub command: CommandId,
    pub argument: String,
}

#[derive(Clone, Debug, PartialEq, Eq)]
pub struct CommandLineOutput {
    pub exit_code: Option<i32>,
    pub stdout: String,
    pub stderr: String,
}

/// Runs a command at a provider location.
pub trait CommandLineExecutor {
    fn execute(&self, location: &Location, command: &str) -> Result<CommandLineOutput, String>;
}

/// Resolves and quotes shell arguments for locations and resources.
pub trait CommandLineArgumentResolver {
    fn quote_text(&self, value: &str) -> String;

    fn location_argument(&self, location: &Location) -> Result<String, String>;

    fn resource_argument(&self, resource: &ResourceRef) -> Result<String, String>;

    /// A native working directory for an interactive shell; `None` when the provider
    /// location cannot host one.
    fn native_working_directory(&self, location: &Location) -> Result<Option<String>, String> {
        Ok(None)
    }
}

/// One remembered command line.
#[derive(Clone, Debug, PartialEq, Eq)]
pub struct CommandHistoryEntry {
    pub command: String,
    pub locked: bool,
    pub use_count: u64,
}

impl CommandHistoryEntry {
    pub fn new(command: String) -> (r: Self)
        ensures
            r.command == command,
            !r.locked,
            r.use_count == 1,
    {
        CommandHistoryEntry { command, locked: false, use_count: 1 }
    }
}

/// Persistent command history.
pub trait CommandHistoryStore {
    fn load(&self) -> Result<Vec<CommandHistoryEntry>, String>;

    fn save(&self, entries: &[CommandHistoryEntry]) -> Result<(), String>;
}

} // verus!
