//! The proxy's settings for reaching peers, and when its list of peers is
//! refreshed.
use vstd::prelude::*;

use crate::fetch_blocks::Peers;

verus! {

/// Connecting to peers through Tor: the address of the SOCKS proxy, and
/// whether every peer, not only onion services, is reached through it.
#[derive(Debug)]
pub struct TorState<A> {
    pub proxy: A,
    pub only: bool,
}

/// What happens to the list of peers before a block is fetched from them.
#[derive(Copy, Clone, Debug, PartialEq, Eq, Structural)]
pub enum PeerRefresh {
    /// The list is fresh: it is used as it is.
    UseCurrent,
    /// The list is stale but not empty: it is used while a new one is
    /// fetched.
    RefreshInBackground,
    /// The list is stale and empty: a new one is fetched and used.
    RefreshAndWait,
}

/// What happens to the list of peers, `now` nanoseconds into the run of the
/// proxy, when lists older than `max_peer_age` nanoseconds are stale.
pub fn peer_refresh(peers: &Peers, now: u128, max_peer_age: u128) -> (res: PeerRefresh)
    ensures
        !peers.spec_stale(now, max_peer_age) ==> res == PeerRefresh::UseCurrent,
        peers.spec_stale(now, max_peer_age) && peers@.len() > 0 ==> res == PeerRefresh::RefreshInBackground,
        peers.spec_stale(now, max_peer_age) && peers@.len() == 0 ==> res == PeerRefresh::RefreshAndWait,
{
    if peers.stale(now, max_peer_age) {
        if peers.is_empty() {
            PeerRefresh::RefreshAndWait
        } else {
            PeerRefresh::RefreshInBackground
        }
    } else {
        PeerRefresh::UseCurrent
    }
}

} // verus!
