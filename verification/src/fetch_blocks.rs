//! Fetching blocks that the node pruned: which peers are asked, how they
//! are reached, and what their messages are answered with.
use vstd::prelude::*;

use crate::block::{block_reencoded, reencode_block, block_hash, block_hash_of, check_merkle_root, check_witness_commitment, merkle_root_matches, witness_commitment_matches};
use crate::client::RpcError;
use crate::rpc_methods::PeerInfo;
use crate::state::TorState;
use crate::users::{find_colon, lemma_until_colon, until_colon};
use crate::util::{str_eq, Either};

verus! {

/// A peer that blocks can be fetched from, by its address.
#[derive(Debug)]
pub struct Peer {
    pub addr: String,
}

impl Peer {
    pub fn new(addr: String) -> (res: Peer)
        ensures
            res.addr == addr,
    {
        Peer { addr }
    }
}

/// The peers known to the proxy, and when they were learned (in
/// nanoseconds into the run of the proxy).
#[derive(Debug)]
pub struct Peers {
    fetched: Option<u128>,
    peers: Vec<Peer>,
}

impl View for Peers {
    type V = Seq<Seq<char>>;

    /// The addresses of the peers.
    closed spec fn view(&self) -> Seq<Seq<char>> {
        self.peers@.map_values(|p: Peer| p.addr@)
    }
}

/// Whether `getpeerinfo` describes a peer that blocks are fetched from: an
/// outbound connection to a full node.
pub open spec fn is_block_source(info: PeerInfo) -> bool {
    !info.inbound && info.servicesnames@.map_values(|s: String| s@).contains("NETWORK"@)
}

/// The addresses of the peers that blocks are fetched from, in order.
pub open spec fn block_sources(infos: Seq<PeerInfo>) -> Seq<Seq<char>>
    decreases infos.len(),
{
    if infos.len() == 0 {
        seq![]
    } else if is_block_source(infos.last()) {
        block_sources(infos.drop_last()).push(infos.last().addr@)
    } else {
        block_sources(infos.drop_last())
    }
}

/// Whether one of the service names is exactly `name`.
pub open spec fn names_contain(names: Seq<String>, name: Seq<char>) -> bool {
    exists|j: int| 0 <= j < names.len() && #[trigger] names[j]@ == name
}

/// The peers that blocks are fetched from, built up one report at a time:
/// none from an empty report; a further peer is added at the end exactly
/// when it is outbound and one of its service names is `NETWORK`, whatever
/// other names it has.
pub proof fn lemma_block_sources_law(infos: Seq<PeerInfo>, info: PeerInfo)
    ensures
        block_sources(Seq::<PeerInfo>::empty()) == Seq::<Seq<char>>::empty(),
        block_sources(infos.push(info)) == (if !info.inbound && names_contain(info.servicesnames@, "NETWORK"@) {
            block_sources(infos).push(info.addr@)
        } else {
            block_sources(infos)
        }),
{
    let all = infos.push(info);
    assert(all.drop_last() =~= infos);
    assert(all.last() == info);
    let texts = info.servicesnames@.map_values(|s: String| s@);
    if names_contain(info.servicesnames@, "NETWORK"@) {
        let j = choose|j: int| 0 <= j < info.servicesnames@.len() && #[trigger] info.servicesnames@[j]@ == "NETWORK"@;
        assert(texts[j] == "NETWORK"@);
    }
    if texts.contains("NETWORK"@) {
        let j = choose|j: int| 0 <= j < texts.len() && texts[j] == "NETWORK"@;
        assert(info.servicesnames@[j]@ == "NETWORK"@);
    }
}

impl Peers {
    /// When the list was learned.
    pub closed spec fn fetched_at(&self) -> Option<u128> {
        self.fetched
    }

    /// Whether the list is older than `max_peer_age` at `now`; a list never
    /// learned is stale.
    pub open spec fn spec_stale(&self, now: u128, max_peer_age: u128) -> bool {
        match self.fetched_at() {
            Some(f) => (if now >= f { now - f } else { 0 }) > max_peer_age,
            None => true,
        }
    }

    /// A list never learned is stale; a list learned at `f` is stale at
    /// `now` exactly when more than `max_peer_age` has passed since, and
    /// once stale it stays stale as time goes on.
    pub proof fn lemma_staleness_law(&self, now: u128, later: u128, max_peer_age: u128)
        ensures
            self.fetched_at() is None ==> self.spec_stale(now, max_peer_age),
            self.fetched_at() is Some && self.fetched_at()->Some_0 <= now ==> (self.spec_stale(now, max_peer_age)
                <==> now - self.fetched_at()->Some_0 > max_peer_age),
            now <= later && self.spec_stale(now, max_peer_age) ==> self.spec_stale(later, max_peer_age),
    {
    }

    /// No peers, never learned.
    pub fn new() -> (res: Peers)
        ensures
            res@ == Seq::<Seq<char>>::empty(),
            res.fetched_at() is None,
    {
        Peers { fetched: None, peers: Vec::new() }
    }

    pub fn stale(&self, now: u128, max_peer_age: u128) -> (res: bool)
        ensures
            res == self.spec_stale(now, max_peer_age),
    {
        match self.fetched {
            Some(f) => {
                let elapsed = if now >= f { now - f } else { 0 };
                elapsed > max_peer_age
            },
            None => true,
        }
    }

    pub fn is_empty(&self) -> (res: bool)
        ensures
            res == (self@.len() == 0),
    {
        self.peers.len() == 0
    }

    /// The peers.
    pub fn peers(&self) -> (res: &Vec<Peer>)
        ensures
            res@.map_values(|p: Peer| p.addr@) == self@,
    {
        &self.peers
    }

    /// The peers that `getpeerinfo` reported at `now`: those that blocks are
    /// fetched from.
    pub fn updated(infos: Vec<PeerInfo>, now: u128) -> (res: Peers)
        ensures
            res@ == block_sources(infos@),
            res.fetched_at() == Some(now),
    {
        let ghost all = infos@;
        let mut rest = infos;
        let mut peers: Vec<Peer> = Vec::new();
        let n = rest.len();
        let mut i: usize = 0;
        while i < n
            invariant
                n == all.len(),
                i <= n,
                rest@ == all.skip(i as int),
                peers@.map_values(|p: Peer| p.addr@) == block_sources(all.take(i as int)),
            decreases n - i,
        {
            let info = rest.remove(0);
            assert(info == all[i as int]);
            assert(all.take(i + 1).drop_last() =~= all.take(i as int));
            let ghost before = peers@;
            if !info.inbound && has_network_service(&info.servicesnames) {
                peers.push(Peer::new(info.addr));
                assert(peers@.map_values(|p: Peer| p.addr@) =~= before.map_values(|p: Peer| p.addr@).push(all[i as int].addr@));
            }
            assert(rest@ =~= all.skip(i + 1));
            i = i + 1;
        }
        assert(all.take(n as int) =~= all);
        Peers { fetched: Some(now), peers }
    }
}

/// Whether the services of a peer include `NETWORK`.
fn has_network_service(names: &Vec<String>) -> (res: bool)
    ensures
        res == names@.map_values(|s: String| s@).contains("NETWORK"@),
{
    let n = names.len();
    let mut i: usize = 0;
    while i < n
        invariant
            n == names@.len(),
            i <= n,
            forall|j: int| 0 <= j < i ==> names@[j]@ != "NETWORK"@,
        decreases n - i,
    {
        if str_eq(names[i].as_str(), "NETWORK") {
            assert(names@.map_values(|s: String| s@)[i as int] == "NETWORK"@);
            return true;
        }
        i = i + 1;
    }
    proof {
        if names@.map_values(|s: String| s@).contains("NETWORK"@) {
            let texts = names@.map_values(|s: String| s@);
            let j = choose|j: int| 0 <= j < texts.len() && #[trigger] texts[j] == "NETWORK"@;
            assert(names@[j]@ == "NETWORK"@);
        }
    }
    false
}

/// The host of an address: what comes before the first colon.
pub open spec fn address_host(addr: Seq<char>) -> Seq<char> {
    until_colon(addr)
}

/// Whether a text ends with another.
pub open spec fn ends_with(text: Seq<char>, suffix: Seq<char>) -> bool {
    suffix.len() <= text.len() && text.skip(text.len() - suffix.len()) == suffix
}

/// Whether a peer is reached through Tor: when Tor is configured, either
/// for every peer, or for onion services.
pub open spec fn spec_use_tor<A>(tor: Option<TorState<A>>, addr: Seq<char>) -> bool {
    match tor {
        Some(t) => t.only || ends_with(address_host(addr), ".onion"@),
        None => false,
    }
}

/// Which peers are reached through Tor, over an address written as a host
/// without colons, a colon and a port: none without Tor; with Tor, every
/// peer when Tor is to be used for all, and otherwise exactly the peers
/// whose host ends in `.onion`, whatever the port.
pub proof fn lemma_tor_routing_law<A>(tor: Option<TorState<A>>, host: Seq<char>, port: Seq<char>)
    requires
        forall|i: int| 0 <= i < host.len() ==> host[i] != ':',
    ensures
        spec_use_tor(tor, host + seq![':'] + port) == match tor {
            None => false,
            Some(t) => t.only || (host.len() >= 6 && host.subrange(host.len() - 6, host.len() as int) == ".onion"@),
        },
        spec_use_tor(tor, host) == spec_use_tor(tor, host + seq![':'] + port),
{
    reveal_strlit(".onion");
    let addr = host + seq![':'] + port;
    assert forall|j: int| 0 <= j < host.len() implies addr[j] != ':' by {
        assert(addr[j] == host[j]);
    }
    lemma_until_colon(addr, host.len() as int);
    assert(addr.take(host.len() as int) =~= host);
    lemma_until_colon(host, host.len() as int);
    assert(host.take(host.len() as int) =~= host);
    if host.len() >= 6 {
        assert(host.skip(host.len() - 6) =~= host.subrange(host.len() - 6, host.len() as int));
    }
}

/// Whether a peer is reached through Tor.
pub fn use_tor<A>(tor: &Option<TorState<A>>, addr: &str) -> (res: bool)
    ensures
        res == spec_use_tor(*tor, addr@),
{
    match tor {
        Some(t) => {
            if t.only {
                return true;
            }
            let len = addr.unicode_len();
            let k = find_colon(addr, 0, len);
            proof {
                lemma_until_colon(addr@, k as int);
                reveal_strlit(".onion");
            }
            if k < 6 {
                return false;
            }
            let tail = addr.substring_char(k - 6, k);
            let res = str_eq(tail, ".onion");
            proof {
                let host = addr@.take(k as int);
                assert(host.skip(host.len() - 6) =~= tail@);
            }
            res
        },
        None => false,
    }
}

/// A message from a peer, as far as fetching a block reads it.
#[derive(Debug)]
pub enum PeerMessage {
    /// A block, as the bytes of its consensus encoding.
    Block(Vec<u8>),
    /// A ping, with its nonce.
    Ping(u64),
    /// Anything else.
    Other,
}

/// Why a block that a peer sent is refused.
#[derive(Copy, Clone, Debug, PartialEq, Eq, Structural)]
pub enum BlockRejection {
    /// Not the block that was asked for.
    UnexpectedHash,
    /// Its transactions do not match its merkle root.
    MerkleCheckFailed,
    /// Its witness data do not match its commitment.
    WitnessCheckFailed,
}

/// What the proxy does with a message from a peer while waiting for a block.
#[derive(Debug)]
pub enum PeerAction {
    /// The block asked for arrived and passed both checks; here are its
    /// bytes.
    Accept(Vec<u8>),
    /// A block arrived and is refused; the peer is given up.
    Reject(BlockRejection),
    /// A ping is answered with a pong of the same nonce.
    Pong(u64),
    /// The message is ignored and the next one awaited.
    Ignore,
}

/// What the proxy does with a message from a peer while waiting for the
/// block of hash `expected`: a block is checked for its hash first, then
/// its merkle root, then its witness commitment.
pub open spec fn spec_peer_action(expected: Seq<u8>, message: PeerMessage) -> PeerAction {
    match message {
        PeerMessage::Block(block) => if block_hash_of(block@) != Some(expected) {
            PeerAction::Reject(BlockRejection::UnexpectedHash)
        } else if !merkle_root_matches(block@) {
            PeerAction::Reject(BlockRejection::MerkleCheckFailed)
        } else if !witness_commitment_matches(block@) {
            PeerAction::Reject(BlockRejection::WitnessCheckFailed)
        } else {
            PeerAction::Accept(block)
        },
        PeerMessage::Ping(nonce) => PeerAction::Pong(nonce),
        PeerMessage::Other => PeerAction::Ignore,
    }
}

/// A peer's message is accepted only if it is a block with the hash asked
/// for whose merkle root and witness commitment both match, and then its
/// bytes are handed on unchanged; any such block is accepted.
pub proof fn lemma_accepted_block_is_verified(expected: Seq<u8>, message: PeerMessage)
    ensures
        (spec_peer_action(expected, message) is Accept) <==> (message matches PeerMessage::Block(block) && {
            &&& block_hash_of(block@) == Some(expected)
            &&& merkle_root_matches(block@)
            &&& witness_commitment_matches(block@)
        }),
        spec_peer_action(expected, message) matches PeerAction::Accept(b) ==> message == PeerMessage::Block(b),
        message matches PeerMessage::Ping(n) ==> spec_peer_action(expected, message) == PeerAction::Pong(n),
        message is Other ==> spec_peer_action(expected, message) is Ignore,
        message matches PeerMessage::Block(block) && block_hash_of(block@) != Some(expected) ==> spec_peer_action(
            expected,
            message,
        ) == PeerAction::Reject(BlockRejection::UnexpectedHash),
{
}

pub fn peer_action(expected: &[u8; 32], message: PeerMessage) -> (res: PeerAction)
    ensures
        res == spec_peer_action(expected@, message),
{
    match message {
        PeerMessage::Block(block) => {
            let hash = block_hash(block.as_slice());
            let same = match hash {
                Some(h) => {
                    let mut i: usize = 0;
                    let mut same = true;
                    while i < 32
                        invariant
                            i <= 32,
                            h@.len() == 32,
                            expected@.len() == 32,
                            same == (forall|j: int| 0 <= j < i ==> h@[j] == expected@[j]),
                        decreases 32 - i,
                    {
                        if h[i] != expected[i] {
                            same = false;
                        }
                        i = i + 1;
                    }
                    proof {
                        if same {
                            assert(h@ =~= expected@);
                        }
                    }
                    same
                },
                None => false,
            };
            if !same {
                PeerAction::Reject(BlockRejection::UnexpectedHash)
            } else if !check_merkle_root(block.as_slice()) {
                PeerAction::Reject(BlockRejection::MerkleCheckFailed)
            } else if !check_witness_commitment(block.as_slice()) {
                PeerAction::Reject(BlockRejection::WitnessCheckFailed)
            } else {
                PeerAction::Accept(block)
            }
        },
        PeerMessage::Ping(nonce) => PeerAction::Pong(nonce),
        PeerMessage::Other => PeerAction::Ignore,
    }
}

/// What the node's answer to `getblock` with verbosity 0 gives: the raw
/// block, nothing when the node pruned it, or an error.
pub fn self_fetch_outcome<L, R>(result: Result<Either<L, R>, RpcError>) -> (res: Result<Option<L>, RpcError>)
    ensures
        match result {
            Ok(Either::Left(b)) => res == Ok::<Option<L>, RpcError>(Some(b)),
            Ok(Either::Right(_)) => res matches Err(e) && e.code == crate::client::MISC_ERROR_CODE
                && e.message@ == "unexpected response for getblock"@ && e.status is None,
            Err(e) => if e.code == crate::client::MISC_ERROR_CODE && e.message@ == crate::client::PRUNE_ERROR_MESSAGE@ {
                res == Ok::<Option<L>, RpcError>(None)
            } else {
                res == Err::<Option<L>, RpcError>(e)
            },
        },
{
    match result {
        Ok(Either::Left(b)) => Ok(Some(b)),
        Ok(Either::Right(_)) => Err(RpcError::misc(String::from_str("unexpected response for getblock"))),
        Err(e) => if e.is_pruned() {
            Ok(None)
        } else {
            Err(e)
        },
    }
}

/// The next step of fetching a block, once the node has answered.
#[derive(Debug)]
pub enum FetchStep {
    /// The node gave the block; these are its bytes.
    Have(Vec<u8>),
    /// The node pruned the block: the peers are asked for it.
    AskPeers,
    /// Fetching fails with this error.
    Fail(RpcError),
}

/// What fetching a block does after the node's answer to `getblock` with
/// verbosity 0: the block the node gave is read and used, encoded again;
/// bytes that start with no block fail with the reader's error; only where
/// the node says it pruned the block are the peers asked; any other answer
/// fails.
pub fn fetch_step<R>(answer: Result<Either<Vec<u8>, R>, RpcError>) -> (res: FetchStep)
    ensures
        match answer {
            Ok(Either::Left(b)) => match block_reencoded(b@) {
                Ok(c) => res matches FetchStep::Have(v) && v@ == c,
                Err(t) => res matches FetchStep::Fail(e) && e.code == crate::client::MISC_ERROR_CODE && e.message@ == t
                    && e.status is None,
            },
            Ok(Either::Right(_)) => res matches FetchStep::Fail(e) && e.code == crate::client::MISC_ERROR_CODE
                && e.message@ == "unexpected response for getblock"@ && e.status is None,
            Err(e) => if e.code == crate::client::MISC_ERROR_CODE && e.message@ == crate::client::PRUNE_ERROR_MESSAGE@ {
                res is AskPeers
            } else {
                res == FetchStep::Fail(e)
            },
        },
{
    match self_fetch_outcome(answer) {
        Ok(Some(b)) => match reencode_block(b.as_slice()) {
            Ok(c) => FetchStep::Have(c),
            Err(t) => FetchStep::Fail(RpcError::misc(t)),
        },
        Ok(None) => FetchStep::AskPeers,
        Err(e) => FetchStep::Fail(e),
    }
}

} // verus!
