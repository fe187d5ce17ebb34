use btc_rpc_proxy::client::{RpcError, MISC_ERROR_CODE};
use btc_rpc_proxy::fetch_blocks::{
    fetch_step, peer_action, self_fetch_outcome, use_tor, BlockRejection, FetchStep, Peer, PeerAction, PeerMessage, Peers,
};
use btc_rpc_proxy::rpc_methods::PeerInfo;
use btc_rpc_proxy::state::{peer_refresh, PeerRefresh, TorState};
use btc_rpc_proxy::util::Either;

fn info(addr: &str, inbound: bool, services: &[&str]) -> PeerInfo {
    PeerInfo {
        id: 0,
        addr: addr.to_owned(),
        addrbind: String::new(),
        addrlocal: None,
        services: "0000000000000409".to_owned(),
        servicesnames: services.iter().map(|s| s.to_string()).collect(),
        version: 70016,
        subver: "/Satoshi:0.21.0/".to_owned(),
        inbound,
        startingheight: 0,
        synced_headers: 0,
        synced_blocks: 0,
        inflight: Vec::new(),
    }
}

#[test]
fn only_outbound_full_nodes_are_asked() {
    let infos = vec![
        info("1.2.3.4:8333", false, &["NETWORK", "WITNESS"]),
        info("5.6.7.8:8333", true, &["NETWORK"]),
        info("9.9.9.9:8333", false, &["NETWORK_LIMITED"]),
        info("abc.onion:8333", false, &["WITNESS", "NETWORK"]),
    ];
    let peers = Peers::updated(infos, 1_000);
    let addrs: Vec<&str> = peers.peers().iter().map(|p| p.addr.as_str()).collect();
    assert_eq!(addrs, vec!["1.2.3.4:8333", "abc.onion:8333"]);
    assert!(!peers.is_empty());
}

#[test]
fn staleness() {
    let never = Peers::new();
    assert!(never.stale(0, 100));
    assert!(never.is_empty());
    let peers = Peers::updated(vec![info("1.2.3.4:8333", false, &["NETWORK"])], 1_000);
    assert!(!peers.stale(1_100, 100));
    assert!(peers.stale(1_101, 100));
    assert!(!peers.stale(500, 100));
}

#[test]
fn refresh_plans() {
    assert_eq!(peer_refresh(&Peers::new(), 0, 10), PeerRefresh::RefreshAndWait);
    let peers = Peers::updated(vec![info("1.2.3.4:8333", false, &["NETWORK"])], 0);
    assert_eq!(peer_refresh(&peers, 5, 10), PeerRefresh::UseCurrent);
    assert_eq!(peer_refresh(&peers, 50, 10), PeerRefresh::RefreshInBackground);
    let empty = Peers::updated(Vec::new(), 0);
    assert_eq!(peer_refresh(&empty, 50, 10), PeerRefresh::RefreshAndWait);
}

#[test]
fn tor_for_onion_services() {
    let tor = Some(TorState { proxy: "127.0.0.1:9050".to_owned(), only: false });
    assert!(use_tor(&tor, "abcdef.onion:8333"));
    assert!(use_tor(&tor, "abcdef.onion"));
    assert!(!use_tor(&tor, "1.2.3.4:8333"));
    assert!(!use_tor(&tor, "onion:8333"));
    let only = Some(TorState { proxy: "127.0.0.1:9050".to_owned(), only: true });
    assert!(use_tor(&only, "1.2.3.4:8333"));
    let none: Option<TorState<String>> = None;
    assert!(!use_tor(&none, "abcdef.onion:8333"));
}

fn genesis() -> bitcoin::Block {
    bitcoin::blockdata::constants::genesis_block(bitcoin::Network::Bitcoin)
}

fn hash_of(block: &bitcoin::Block) -> [u8; 32] {
    <bitcoin::BlockHash as bitcoin::hashes::Hash>::into_inner(block.block_hash())
}

fn accepted(action: PeerAction) -> Option<Vec<u8>> {
    match action {
        PeerAction::Accept(bytes) => Some(bytes),
        _ => None,
    }
}

fn rejected(action: PeerAction) -> Option<BlockRejection> {
    match action {
        PeerAction::Reject(why) => Some(why),
        _ => None,
    }
}

#[test]
fn peer_messages() {
    let block = genesis();
    let hash = hash_of(&block);
    let bytes = bitcoin::consensus::serialize(&block);
    assert_eq!(accepted(peer_action(&hash, PeerMessage::Block(bytes.clone()))), Some(bytes.clone()));
    let mut other = hash;
    other[0] ^= 1;
    assert_eq!(rejected(peer_action(&other, PeerMessage::Block(bytes.clone()))), Some(BlockRejection::UnexpectedHash));
    assert_eq!(rejected(peer_action(&hash, PeerMessage::Block(vec![1, 2, 3]))), Some(BlockRejection::UnexpectedHash));

    let mut tampered = genesis();
    tampered.header.merkle_root = Default::default();
    let tampered_hash = hash_of(&tampered);
    let action = peer_action(&tampered_hash, PeerMessage::Block(bitcoin::consensus::serialize(&tampered)));
    assert_eq!(rejected(action), Some(BlockRejection::MerkleCheckFailed));

    let mut witnessed = genesis();
    witnessed.txdata[0].input[0].witness = bitcoin::Witness::from_vec(vec![vec![0u8; 32]]);
    let action = peer_action(&hash, PeerMessage::Block(bitcoin::consensus::serialize(&witnessed)));
    assert_eq!(rejected(action), Some(BlockRejection::WitnessCheckFailed));

    assert!(matches!(peer_action(&hash, PeerMessage::Ping(42)), PeerAction::Pong(42)));
    assert!(matches!(peer_action(&hash, PeerMessage::Other), PeerAction::Ignore));
}

#[test]
fn node_decides_whether_peers_are_asked() {
    let bytes = bitcoin::consensus::serialize(&genesis());
    let found: Result<Either<Vec<u8>, ()>, RpcError> = Ok(Either::Left(bytes.clone()));
    assert!(matches!(fetch_step(found), FetchStep::Have(ref b) if *b == bytes));
    let mut longer = bytes.clone();
    longer.extend_from_slice(&[9, 9]);
    let found: Result<Either<Vec<u8>, ()>, RpcError> = Ok(Either::Left(longer));
    assert!(matches!(fetch_step(found), FetchStep::Have(ref b) if *b == bytes));
    let expected = <bitcoin::Block as bitcoin::consensus::Decodable>::consensus_decode(&mut std::io::Cursor::new(&[1u8, 2][..]))
        .unwrap_err()
        .to_string();
    let garbage: Result<Either<Vec<u8>, ()>, RpcError> = Ok(Either::Left(vec![1, 2]));
    assert!(matches!(fetch_step(garbage), FetchStep::Fail(e) if e.message == expected && e.code == MISC_ERROR_CODE));
    let pruned: Result<Either<Vec<u8>, ()>, RpcError> = Err(RpcError::pruned());
    assert!(matches!(fetch_step(pruned), FetchStep::AskPeers));
    let other: Result<Either<Vec<u8>, ()>, RpcError> = Err(RpcError::misc("no".to_owned()));
    assert!(matches!(fetch_step(other), FetchStep::Fail(e) if e.message == "no"));
    let decoded: Result<Either<Vec<u8>, ()>, RpcError> = Ok(Either::Right(()));
    assert!(matches!(fetch_step(decoded), FetchStep::Fail(e) if e.message == "unexpected response for getblock"));
}

#[test]
fn node_answers_to_getblock() {
    let found: Result<Either<Vec<u8>, ()>, RpcError> = Ok(Either::Left(vec![1, 2]));
    assert_eq!(self_fetch_outcome(found).unwrap(), Some(vec![1, 2]));
    let pruned: Result<Either<Vec<u8>, ()>, RpcError> = Err(RpcError::pruned());
    assert_eq!(self_fetch_outcome(pruned).unwrap(), None);
    let other: Result<Either<Vec<u8>, ()>, RpcError> = Err(RpcError::misc("no".to_owned()));
    assert_eq!(self_fetch_outcome(other).unwrap_err().message, "no");
    let decoded: Result<Either<Vec<u8>, ()>, RpcError> = Ok(Either::Right(()));
    let e = self_fetch_outcome(decoded).unwrap_err();
    assert_eq!(e.code, MISC_ERROR_CODE);
    assert_eq!(e.message, "unexpected response for getblock");
}

#[test]
fn peer_keeps_address() {
    assert_eq!(Peer::new("1.2.3.4:8333".to_owned()).addr, "1.2.3.4:8333");
}
