//! How the program runs: which side it is, which mailbox it writes and which
//! backend carries the mailboxes.

use crate::text::{join, same_text};
use vstd::prelude::*;
use vstd::string::StringExecFns;

verus! {

/// The mode to run in.
#[derive(Debug, Clone, PartialEq, Eq)]
pub enum Mode {
    /// Interactive session that starts listeners on request.
    Master,
    /// One listener: the port to listen on, then the address and the port that
    /// the client is to dial for each connection.
    Server(u16, String, u16),
    /// The side that dials.
    Client,
}

/// The backend that carries the mailboxes.
#[derive(Debug, Clone, Copy, PartialEq, Eq, Structural)]
pub enum TunnelApi {
    /// The AWS SDK.
    Aws,
    /// The `s3cmd` command line tool.
    S3Cmd,
}

/// The mode that a subcommand asks for: `master`, `client`, or `server`
/// together with its three values. Nothing else is a mode.
pub open spec fn mode_of(subcommand: Seq<char>, server: Option<(u16, String, u16)>) -> Option<Mode> {
    if subcommand == "master"@ {
        Some(Mode::Master)
    } else if subcommand == "server"@ {
        match server {
            Some((port, address, client_port)) => Some(Mode::Server(port, address, client_port)),
            None => None,
        }
    } else if subcommand == "client"@ {
        Some(Mode::Client)
    } else {
        None
    }
}

impl Mode {
    /// Whether this side accepts the local connections: every mode but the
    /// client does.
    pub fn is_server(&self) -> (b: bool)
        ensures
            b == !(self is Client),
    {
        match self {
            Mode::Client => false,
            _ => true,
        }
    }

    /// The mode that the subcommand of the command line asks for; `server`
    /// holds the values of the subcommand `server`, where it was given.
    pub fn select(subcommand: &str, server: Option<(u16, String, u16)>) -> (r: Result<Mode, String>)
        ensures
            match mode_of(subcommand@, server) {
                Some(mode) => r == Ok::<Mode, String>(mode),
                None => r matches Err(message) && message@
                    == "Choose mode to run: master, server, client"@,
            },
    {
        proof {
            reveal_strlit("master");
            reveal_strlit("server");
            reveal_strlit("client");
        }
        if same_text(subcommand, "master") {
            return Ok(Mode::Master);
        }
        if same_text(subcommand, "server") {
            match server {
                Some((port, address, client_port)) => {
                    return Ok(Mode::Server(port, address, client_port));
                },
                None => {},
            }
        } else if same_text(subcommand, "client") {
            return Ok(Mode::Client);
        }
        Err(String::from_str("Choose mode to run: master, server, client"))
    }
}

impl TunnelApi {
    /// The backend that a name asks for: `s3cmd` is the command line tool,
    /// every other name the SDK.
    pub fn from_name(name: &str) -> (api: TunnelApi)
        ensures
            api == (if name@ == "s3cmd"@ {
                TunnelApi::S3Cmd
            } else {
                TunnelApi::Aws
            }),
    {
        if same_text(name, "s3cmd") {
            TunnelApi::S3Cmd
        } else {
            TunnelApi::Aws
        }
    }
}

/// The names of the mailbox that this side writes and of the one it reads.
/// The server writes `<file_name>.in` and reads `<file_name>.out`; the client
/// does the opposite.
pub fn mailbox_names(is_server: bool, file_name: &str) -> (names: (String, String))
    ensures
        names.0@ == file_name@ + (if is_server {
            ".in"@
        } else {
            ".out"@
        }),
        names.1@ == file_name@ + (if is_server {
            ".out"@
        } else {
            ".in"@
        }),
{
    if is_server {
        (join(file_name, ".in"), join(file_name, ".out"))
    } else {
        (join(file_name, ".out"), join(file_name, ".in"))
    }
}

} // verus!
