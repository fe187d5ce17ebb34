//! The RPC methods that the proxy itself looks into, and the plain parts of
//! their results.
use vstd::prelude::*;

use crate::client::RpcMethod;
use crate::util::str_eq;

verus! {

/// `getblock`
#[derive(Debug)]
pub struct GetBlock;

/// `getblockheader`
#[derive(Debug)]
pub struct GetBlockHeader;

/// `getpeerinfo`
#[derive(Debug)]
pub struct GetPeerInfo;

/// `getblockchaininfo`
#[derive(Debug)]
pub struct GetBlockchainInfo;

impl RpcMethod for GetBlock {
    open spec fn spec_name(&self) -> Seq<char> {
        "getblock"@
    }

    fn as_str(&self) -> (res: &str) {
        "getblock"
    }
}

impl RpcMethod for GetBlockHeader {
    open spec fn spec_name(&self) -> Seq<char> {
        "getblockheader"@
    }

    fn as_str(&self) -> (res: &str) {
        "getblockheader"
    }
}

impl RpcMethod for GetPeerInfo {
    open spec fn spec_name(&self) -> Seq<char> {
        "getpeerinfo"@
    }

    fn as_str(&self) -> (res: &str) {
        "getpeerinfo"
    }
}

impl RpcMethod for GetBlockchainInfo {
    open spec fn spec_name(&self) -> Seq<char> {
        "getblockchaininfo"@
    }

    fn as_str(&self) -> (res: &str) {
        "getblockchaininfo"
    }
}

impl GetBlock {
    /// The method named by a text, as it is read from a request: only its
    /// own name names it.
    pub fn from_name(name: &str) -> (res: Option<GetBlock>)
        ensures
            res is Some <==> name@ == GetBlock.spec_name(),
    {
        if str_eq(name, GetBlock.as_str()) {
            Some(GetBlock)
        } else {
            None
        }
    }
}

impl GetBlockHeader {
    pub fn from_name(name: &str) -> (res: Option<GetBlockHeader>)
        ensures
            res is Some <==> name@ == GetBlockHeader.spec_name(),
    {
        if str_eq(name, GetBlockHeader.as_str()) {
            Some(GetBlockHeader)
        } else {
            None
        }
    }
}

impl GetPeerInfo {
    pub fn from_name(name: &str) -> (res: Option<GetPeerInfo>)
        ensures
            res is Some <==> name@ == GetPeerInfo.spec_name(),
    {
        if str_eq(name, GetPeerInfo.as_str()) {
            Some(GetPeerInfo)
        } else {
            None
        }
    }
}

impl GetBlockchainInfo {
    pub fn from_name(name: &str) -> (res: Option<GetBlockchainInfo>)
        ensures
            res is Some <==> name@ == GetBlockchainInfo.spec_name(),
    {
        if str_eq(name, GetBlockchainInfo.as_str()) {
            Some(GetBlockchainInfo)
        } else {
            None
        }
    }
}

/// What `getpeerinfo` tells of a peer.
#[derive(Debug)]
pub struct PeerInfo {
    /// Peer index
    pub id: u64,
    /// The IP address and port of the peer
    pub addr: String,
    /// Bind address of the connection to the peer
    pub addrbind: String,
    /// Local address as reported by the peer
    pub addrlocal: Option<String>,
    /// The services offered
    pub services: String,
    /// The names of the services offered
    pub servicesnames: Vec<String>,
    /// The peer version, such as 70001
    pub version: u64,
    /// The string version
    pub subver: String,
    /// Inbound (true) or Outbound (false)
    pub inbound: bool,
    /// The starting height (block) of the peer
    pub startingheight: i64,
    /// The last header we have in common with this peer
    pub synced_headers: i64,
    /// The last block we have in common with this peer
    pub synced_blocks: i64,
    /// The heights of blocks we're currently asking from this peer
    pub inflight: Vec<u64>,
}

#[derive(Copy, Clone, Debug, PartialEq, Eq, Structural)]
pub enum Bip9SoftforkStatus {
    Defined,
    Started,
    LockedIn,
    Active,
    Failed,
}

#[derive(Copy, Clone, Debug, PartialEq, Eq, Structural)]
pub struct Bip9SoftforkStatistics {
    pub period: u32,
    pub threshold: u32,
    pub elapsed: u32,
    pub count: u32,
    pub possible: bool,
}

#[derive(Copy, Clone, Debug, PartialEq, Eq, Structural)]
pub struct Bip9SoftforkInfo {
    pub status: Bip9SoftforkStatus,
    pub bit: Option<u8>,
    // Can be -1 for 0.18.x inactive ones.
    pub start_time: i64,
    pub timeout: u64,
    pub since: u32,
    pub statistics: Option<Bip9SoftforkStatistics>,
}

#[derive(Copy, Clone, Debug, PartialEq, Eq, Structural)]
pub enum SoftforkType {
    Buried,
    Bip9,
}

#[derive(Copy, Clone, Debug, PartialEq, Eq, Structural)]
pub struct Softfork {
    pub type_: SoftforkType,
    pub bip9: Option<Bip9SoftforkInfo>,
    pub height: Option<u32>,
    pub active: bool,
}

} // verus!
