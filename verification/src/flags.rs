//! The command line of the program: it takes no arguments and has no
//! subcommands.

use vstd::prelude::*;

verus! {

/// The command line arguments; there are none.
#[derive(Debug, Clone, Copy, PartialEq, Eq, Structural)]
pub struct Args {}

/// The subcommands; there are none.
#[derive(Debug, Clone, Copy, PartialEq, Eq, Structural)]
pub struct WorkspaceCommands;

impl Default for WorkspaceCommands {
    fn default() -> (r: Self)
        ensures
            r == WorkspaceCommands,
    {
        WorkspaceCommands
    }
}

impl WorkspaceCommands {
    /// The subcommand as text: empty.
    pub fn to_string(&self) -> (r: String)
        ensures
            r@ == Seq::<char>::empty(),
    {
        String::new()
    }
}

impl Args {
    /// The subcommand requested: never one.
    pub fn action(&self) -> (r: Option<&WorkspaceCommands>)
        ensures
            r is None,
    {
        None
    }
}

} // verus!
