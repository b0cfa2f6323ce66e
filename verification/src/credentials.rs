//! Credentials of the peer of a Unix socket.

use vstd::prelude::*;

verus! {

/// The user, group and process of a socket peer (`SO_PEERCRED`).
#[derive(Debug, Clone, Copy, PartialEq, Eq)]
pub struct PeerCredentials {
    pub uid: u32,
    pub gid: u32,
    pub pid: i32,
}

} // verus!
