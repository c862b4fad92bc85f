//! The listening side: what is decided for each accepted connection, and the
//! console command that redirects the connections that follow.

use crate::console::{command_match, read_command, read_target, target_of, target_view};
use crate::text::{host_port, join_host_port};
use crate::tunnel::WriterData;
use vstd::prelude::*;

verus! {

/// Where the client is to dial for each new connection.
#[derive(Debug, Clone, PartialEq, Eq)]
pub struct Target {
    /// Address to dial.
    pub ip: String,
    /// Port to dial.
    pub port: u16,
}

/// The address on which the listener for `port` binds: every interface.
pub fn listen_address(port: u16) -> (address: String)
    ensures
        address@ == host_port("0.0.0.0"@, port),
{
    join_host_port("0.0.0.0", port)
}

/// The id of the connection that was accepted as number `index`, counting
/// from 0: ids start at 1.
pub fn connection_id(index: usize) -> (id: u64)
    requires
        index < usize::MAX,
    ensures
        id == index + 1,
{
    (index + 1) as u64
}

/// What a line of the server's console means: the target that clap's parser
/// of the command `connect` finds in it. An error of clap is given by its
/// message alone.
pub open spec fn redirection(line: Seq<char>) -> Result<(Seq<char>, nat), Seq<char>> {
    target_of(command_match("connect"@, line), false)
}

/// Reads the new target from a line of the server's console.
pub fn parse_connect(line: String) -> (r: Result<(String, u16), String>)
    ensures
        target_view(r) == redirection(line@),
{
    let matched = read_command("connect", line.as_str());
    read_target(matched, false)
}

impl Target {
    /// The target `ip:port`.
    pub fn new(ip: String, port: u16) -> (target: Target)
        ensures
            target == (Target { ip, port }),
    {
        Target { ip, port }
    }

    /// What is announced to the peer for the connection `id`: a request to
    /// dial this target.
    pub fn announce(&self, id: u64) -> (connect: WriterData)
        ensures
            connect == WriterData::Connect(id, self.ip, self.port),
    {
        WriterData::Connect(id, self.ip.clone(), self.port)
    }

    /// What is decided for the connection that was accepted as number
    /// `index`, counting from 0: its id, and what is announced to the peer.
    pub fn accept(&self, index: usize) -> (accepted: (u64, WriterData))
        requires
            index < usize::MAX,
        ensures
            accepted.0 == index + 1,
            accepted.1 == WriterData::Connect(accepted.0, self.ip, self.port),
    {
        let id = connection_id(index);
        (id, self.announce(id))
    }

    /// Takes a line of the server's console. A `connect` command replaces the
    /// target; any other line leaves it and gives the text to show.
    pub fn redirect(&mut self, line: String) -> (shown: Option<String>)
        ensures
            match redirection(line@) {
                Ok((ip, port)) => shown is None && final(self).ip@ == ip && final(self).port
                    == port,
                Err(message) => shown matches Some(text) && text@ == message && *final(self)
                    == *old(self),
            },
    {
        match parse_connect(line) {
            Ok((ip, port)) => {
                self.ip = ip;
                self.port = port;
                None
            },
            Err(message) => Some(message),
        }
    }
}

} // verus!
