//! What the exit of the `s3cmd` tool says about a fetched mailbox.

use vstd::prelude::*;

verus! {

/// What became of an attempt to fetch the inbound mailbox object.
#[derive(Debug, Clone, Copy, PartialEq, Eq, Structural)]
pub enum Fetch {
    /// The object was fetched: its contents are to be read.
    Fetched,
    /// There is no such object.
    NoFile,
    /// The attempt failed: nothing is reported to the tunnel.
    Failed,
}

/// Reads the exit code of `s3cmd get`: 0 says that the object was fetched,
/// 12 that there is none; any other code, and an exit without a code, is a
/// failure.
pub fn fetch_outcome(code: Option<i32>) -> (fetch: Fetch)
    ensures
        fetch == (match code {
            Some(0) => Fetch::Fetched,
            Some(12) => Fetch::NoFile,
            _ => Fetch::Failed,
        }),
{
    match code {
        Some(0) => Fetch::Fetched,
        Some(12) => Fetch::NoFile,
        _ => Fetch::Failed,
    }
}

} // verus!
