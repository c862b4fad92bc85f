//! Commands used by the master.

use crate::console::{command_match, read_command, read_target, target_of, target_view};
use vstd::prelude::*;

verus! {

/// Commands used by the master.
#[derive(Debug, PartialEq, Eq)]
pub enum Cmd {
    /// Create a server to connect to a specified address and listening to a
    /// specific port.
    Server(String, u16),
}

/// The view of a command or an error text.
pub open spec fn cmd_view(cmd: Result<Cmd, String>) -> Result<(Seq<char>, nat), Seq<char>> {
    match cmd {
        Ok(Cmd::Server(address, port)) => Ok((address@, port as nat)),
        Err(message) => Err(message@),
    }
}

impl Cmd {
    /// What a line of the master's console means: the target that clap's
    /// parser of the command `server` finds in it. An error of clap is given
    /// as clap prints it, with a line end.
    pub open spec fn meaning(line: Seq<char>) -> Result<(Seq<char>, nat), Seq<char>> {
        target_of(command_match("server"@, line), true)
    }

    /// The command with the given target.
    pub fn from_target(target: Result<(String, u16), String>) -> (r: Result<Cmd, String>)
        ensures
            cmd_view(r) == target_view(target),
    {
        match target {
            Ok((address, port)) => Ok(Cmd::Server(address, port)),
            Err(message) => Err(message),
        }
    }

    /// Reads a command from a line of the master's console.
    pub fn parse(line: String) -> (r: Result<Cmd, String>)
        ensures
            cmd_view(r) == Cmd::meaning(line@),
    {
        let matched = read_command("server", line.as_str());
        Cmd::from_target(read_target(matched, true))
    }
}

} // verus!
