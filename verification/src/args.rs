//! The command line as the library sees it: the subcommand, the shell of a
//! completion script and the optional middle name.

use vstd::prelude::*;

verus! {

/// What to do with the pod whose name is given.
#[derive(Clone, Debug)]
pub enum Command {
    /// Show description of a pod
    DESCRIBE { name: String },
    /// Delete a pod
    DELETE { name: String },
    /// Show image of a pod
    IMAGE { name: String },
    /// Show docker container id within a pod
    CONTAINER { name: String },
    /// Show log
    LOG { name: String },
    /// Execute a command in a container
    EXEC { name: String },
}

/// The (partial) pod name that a command carries.
pub open spec fn command_pod_name(command: Command) -> Seq<char> {
    match command {
        Command::DESCRIBE { name } => name@,
        Command::DELETE { name } => name@,
        Command::IMAGE { name } => name@,
        Command::CONTAINER { name } => name@,
        Command::LOG { name } => name@,
        Command::EXEC { name } => name@,
    }
}

impl Command {
    /// The (partial) pod name given with the command.
    pub fn pod_name(&self) -> (res: &String)
        ensures
            res@ == command_pod_name(*self),
    {
        match self {
            Command::DESCRIBE { name } => name,
            Command::DELETE { name } => name,
            Command::IMAGE { name } => name,
            Command::CONTAINER { name } => name,
            Command::LOG { name } => name,
            Command::EXEC { name } => name,
        }
    }
}

/// A shell for which a completion script can be generated.
#[derive(Clone, Copy, Debug, PartialEq, Eq, Structural)]
pub enum Shell {
    Bash,
    Zsh,
    Fish,
    PowerShell,
    Elvish,
}

/// The parsed command line.
#[derive(Clone, Debug)]
pub struct Args {
    /// Generate a SHELL completion script and print to stdout
    pub completion: Option<Shell>,
    /// Subcommands to show pod info
    pub cmd: Option<Command>,
    /// Insert a middle name between component and version number (kg2 -> kg-sophon2, with middle name "-sophon")
    pub middle: Option<String>,
}

} // verus!
