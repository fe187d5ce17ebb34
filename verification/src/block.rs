//! Blocks, held as the bytes of their consensus encoding, and what the
//! `bitcoin` crate computes of them. Each function here decodes the bytes
//! with `bitcoin::consensus::deserialize`, which refuses bytes that are not
//! exactly one block.
use vstd::prelude::*;

verus! {

/// The hash of the block that the bytes encode, as the 32 bytes of
/// `Block::block_hash`; `None` where they encode no block.
pub uninterp spec fn block_hash_of(block: Seq<u8>) -> Option<Seq<u8>>;

/// Whether the bytes encode a block whose merkle root matches its
/// transactions (`Block::check_merkle_root`).
pub uninterp spec fn merkle_root_matches(block: Seq<u8>) -> bool;

/// Whether the bytes encode a block whose witness commitment matches its
/// transactions (`Block::check_witness_commitment`).
pub uninterp spec fn witness_commitment_matches(block: Seq<u8>) -> bool;

/// The size of the block that the bytes encode (`Block::size`).
pub uninterp spec fn block_size_of(block: Seq<u8>) -> Option<usize>;

/// The size of the block that the bytes encode without its witness data
/// (`Block::strippedsize`).
pub uninterp spec fn block_stripped_size_of(block: Seq<u8>) -> Option<usize>;

/// The weight of the block that the bytes encode (`Block::weight`).
pub uninterp spec fn block_weight_of(block: Seq<u8>) -> Option<usize>;

/// Calls `Block::block_hash` on the decoded block.
#[verifier::external_body]
pub(crate) fn block_hash(block: &[u8]) -> (res: Option<[u8; 32]>)
    ensures
        match res {
            Some(h) => block_hash_of(block@) == Some(h@),
            None => block_hash_of(block@) is None,
        },
{
    match bitcoin::consensus::deserialize::<bitcoin::Block>(block) {
        Ok(b) => Some(<bitcoin::BlockHash as bitcoin::hashes::Hash>::into_inner(b.block_hash())),
        Err(_) => None,
    }
}

/// Calls `Block::check_merkle_root` on the decoded block; `false` where the
/// bytes encode no block.
#[verifier::external_body]
pub(crate) fn check_merkle_root(block: &[u8]) -> (res: bool)
    ensures
        res == merkle_root_matches(block@),
{
    match bitcoin::consensus::deserialize::<bitcoin::Block>(block) {
        Ok(b) => b.check_merkle_root(),
        Err(_) => false,
    }
}

/// Calls `Block::check_witness_commitment` on the decoded block; `false`
/// where the bytes encode no block.
#[verifier::external_body]
pub(crate) fn check_witness_commitment(block: &[u8]) -> (res: bool)
    ensures
        res == witness_commitment_matches(block@),
{
    match bitcoin::consensus::deserialize::<bitcoin::Block>(block) {
        Ok(b) => b.check_witness_commitment(),
        Err(_) => false,
    }
}

/// Calls `Block::size` on the decoded block.
#[verifier::external_body]
pub(crate) fn block_size(block: &[u8]) -> (res: Option<usize>)
    ensures
        match res {
            Some(n) => block_size_of(block@) == Some(n),
            None => block_size_of(block@) is None,
        },
{
    match bitcoin::consensus::deserialize::<bitcoin::Block>(block) {
        Ok(b) => Some(b.size()),
        Err(_) => None,
    }
}

/// Calls `Block::strippedsize` on the decoded block.
#[verifier::external_body]
pub(crate) fn block_stripped_size(block: &[u8]) -> (res: Option<usize>)
    ensures
        match res {
            Some(n) => block_stripped_size_of(block@) == Some(n),
            None => block_stripped_size_of(block@) is None,
        },
{
    match bitcoin::consensus::deserialize::<bitcoin::Block>(block) {
        Ok(b) => Some(b.strippedsize()),
        Err(_) => None,
    }
}

/// Calls `Block::weight` on the decoded block.
#[verifier::external_body]
pub(crate) fn block_weight(block: &[u8]) -> (res: Option<usize>)
    ensures
        match res {
            Some(n) => block_weight_of(block@) == Some(n),
            None => block_weight_of(block@) is None,
        },
{
    match bitcoin::consensus::deserialize::<bitcoin::Block>(block) {
        Ok(b) => Some(b.weight()),
        Err(_) => None,
    }
}

/// What `BlockHash::from_str` reads from a text: the 32 bytes of the hash,
/// or the text of its error.
pub uninterp spec fn block_hash_from_text(text: Seq<char>) -> Result<Seq<u8>, Seq<char>>;

/// Calls `BlockHash::from_str`, and `Display` on its error.
#[verifier::external_body]
pub(crate) fn block_hash_from_str(text: &str) -> (res: Result<[u8; 32], String>)
    ensures
        match res {
            Ok(h) => block_hash_from_text(text@) == Ok::<Seq<u8>, Seq<char>>(h@),
            Err(e) => block_hash_from_text(text@) == Err::<Seq<u8>, Seq<char>>(e@),
        },
{
    match <bitcoin::BlockHash as std::str::FromStr>::from_str(text) {
        Ok(h) => Ok(<bitcoin::BlockHash as bitcoin::hashes::Hash>::into_inner(h)),
        Err(e) => Err(e.to_string()),
    }
}

/// The ids of the transactions of the block that the bytes encode, in
/// order, as `Txid`'s `Display` writes them.
pub uninterp spec fn block_txids_of(block: Seq<u8>) -> Option<Seq<Seq<char>>>;

/// Calls `Transaction::txid` on each transaction of the decoded block, and
/// `Display` on each id.
#[verifier::external_body]
pub(crate) fn block_txids(block: &[u8]) -> (res: Option<Vec<String>>)
    ensures
        match res {
            Some(v) => block_txids_of(block@) == Some(v@.map_values(|t: String| t@)),
            None => block_txids_of(block@) is None,
        },
{
    match bitcoin::consensus::deserialize::<bitcoin::Block>(block) {
        Ok(b) => Some(b.txdata.iter().map(|tx| tx.txid().to_string()).collect()),
        Err(_) => None,
    }
}

/// What reading a block from the start of the bytes gives
/// (`Block::consensus_decode`, which leaves any bytes after the block
/// unread): the block encoded again (`consensus::serialize`), or the text of
/// the decoding error.
pub uninterp spec fn block_reencoded(block: Seq<u8>) -> Result<Seq<u8>, Seq<char>>;

/// Calls `Block::consensus_decode` on the bytes and `consensus::serialize`
/// on the block, or `Display` on the error.
#[verifier::external_body]
pub(crate) fn reencode_block(block: &[u8]) -> (res: Result<Vec<u8>, String>)
    ensures
        match res {
            Ok(v) => block_reencoded(block@) == Ok::<Seq<u8>, Seq<char>>(v@),
            Err(e) => block_reencoded(block@) == Err::<Seq<u8>, Seq<char>>(e@),
        },
{
    match <bitcoin::Block as bitcoin::consensus::Decodable>::consensus_decode(&mut std::io::Cursor::new(block)) {
        Ok(b) => Ok(bitcoin::consensus::serialize(&b)),
        Err(e) => Err(e.to_string()),
    }
}

} // verus!
