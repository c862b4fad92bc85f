//! The dialing side: where a dial request of the peer leads.

use crate::text::{host_port, join_host_port};
use crate::tunnel::NewConnection;
use vstd::prelude::*;

verus! {

/// The address to dial for a request of the peer, as `address:port`.
pub fn dial_address(connection: &NewConnection) -> (address: String)
    ensures
        address@ == host_port(connection.1@, connection.2),
{
    join_host_port(connection.1.as_str(), connection.2)
}

} // verus!
