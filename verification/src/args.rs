use vstd::prelude::*;

verus! {

/// The command line of the tool.
#[derive(Debug)]
pub struct CarapaceArgs {
    /// Main action
    pub command: ActionType,
}

/// The main actions.
#[derive(Debug)]
pub enum ActionType {
    /// Create or remove aliases
    Alias(AliasCommand),
    /// Create or remove monikers
    Moniker(MonikerCommand),
    /// Run the setup process
    Setup,
    /// Cleanup junk (not implemented yet)
    Clean,
}

/// `alias` and its subcommand.
#[derive(Debug)]
pub struct AliasCommand {
    pub subcommand: AliasSubCommand,
}

/// `moniker` and its subcommand.
#[derive(Debug)]
pub struct MonikerCommand {
    pub subcommand: MonikerSubCommand,
}

/// What to do with aliases.
#[derive(Debug)]
pub enum AliasSubCommand {
    /// Create an alias
    Add(CreateAlias),
    /// Delete an alias
    Del(RemoveAlias),
    /// List aliases
    List,
}

/// What to do with monikers.
#[derive(Debug)]
pub enum MonikerSubCommand {
    /// Add a moniker
    Create(CreateMoniker),
    /// Remove a moniker
    Remove(RemoveMoniker),
    /// List monikers
    List,
    /// Run a moniker, intended for automated use (ex. `alias ls='csc moniker execute ls-fancy'`).
    Execute(ExecuteMoniker),
}

/// Running `alias` runs `old_command`.
#[derive(Debug)]
pub struct CreateAlias {
    /// The command to activate the alias
    pub alias: String,
    /// The command you want to alias
    pub old_command: String,
}

/// A moniker needs the path of a Lua file.
#[derive(Debug)]
pub struct CreateMoniker {
    /// The command to activate the moniker
    pub moniker: String,
    /// The moniker's path
    pub moniker_path: String,
}

/// The alias to remove.
#[derive(Debug)]
pub struct RemoveAlias {
    /// The alias to be removed
    pub alias: String,
}

/// The moniker to remove.
#[derive(Debug)]
pub struct RemoveMoniker {
    /// The moniker to be removed
    pub moniker: String,
}

/// The moniker to run, and the arguments handed to it.
#[derive(Debug)]
pub struct ExecuteMoniker {
    /// The moniker to be executed (name without the .lua file extension)
    pub moniker: String,
    pub args: Vec<String>,
}

} // verus!
