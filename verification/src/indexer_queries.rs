//! The queries that are put to an indexer, each with the variables it takes.

use crate::hexcodec::{encode_hex, hex_encode};
use crate::indexer_client::RawPoiRequest;
use crate::text::{decimal_digits, u64_to_decimal};
use crate::types::{PoiRequest, PoiRequestView};
use vstd::prelude::*;
use vstd::string::*;

verus! {

/// Asks for nothing but the name of the root type: a ping.
pub struct Typename;

/// Asks for the indexing statuses of all deployments.
pub struct IndexingStatuses;

/// Asks for public proofs of indexing.
pub struct ProofsOfIndexing;

/// Asks for the version of the indexer.
pub struct IndexerVersion;

/// Asks for the API versions of a subgraph.
pub struct SubgraphApiVersions;

/// Asks for the entity changes of a subgraph in a block.
pub struct EntityChangesInBlock;

/// Asks for the cached Ethereum calls of a block.
pub struct CachedEthereumCalls;

/// Asks for the block cache contents of a block.
pub struct BlockData;

/// The variables of a query by network and block hash.
#[derive(Debug)]
pub struct BlockVariables {
    pub network: String,
    /// The block hash in lowercase hexadecimal, without a prefix.
    pub block_hash: String,
}

/// The variables of the query for entity changes.
#[derive(Debug)]
pub struct EntityChangesVariables {
    pub subgraph_id: String,
    pub block_number: i64,
}

/// A request as it is sent: the deployment, and the block number in decimal.
pub open spec fn raw_request(request: PoiRequestView) -> (Seq<char>, Seq<char>) {
    (request.deployment, decimal_digits(request.block_number as nat))
}

/// The variables of a query by network and block hash.
fn block_variables(network: &str, block_hash: &[u8]) -> (variables: BlockVariables)
    ensures
        variables.network@ == network@,
        variables.block_hash@ == hex_encode(block_hash@),
{
    BlockVariables { network: String::from_str(network), block_hash: encode_hex(block_hash) }
}

impl Typename {
    pub fn query() -> (text: &'static str)
        ensures
            text@ == "query { __typename }"@,
    {
        "query { __typename }"
    }
}

impl IndexingStatuses {
    pub fn query() -> (text: &'static str)
        ensures
            text@
                == "query { indexingStatuses { subgraph chains { network ... on EthereumIndexingStatus { latestBlock { number hash } earliestBlock { number hash } } } } }"@,
    {
        "query { indexingStatuses { subgraph chains { network ... on EthereumIndexingStatus { latestBlock { number hash } earliestBlock { number hash } } } } }"
    }
}

impl ProofsOfIndexing {
    pub fn query() -> (text: &'static str)
        ensures
            text@
                == "query($requests: [PublicProofOfIndexingRequest!]!) { publicProofsOfIndexing(requests: $requests) { deployment proofOfIndexing block { number hash } } }"@,
    {
        "query($requests: [PublicProofOfIndexingRequest!]!) { publicProofsOfIndexing(requests: $requests) { deployment proofOfIndexing block { number hash } } }"
    }

    /// The requests of one call as they are sent: each with its block
    /// number in decimal.
    pub fn variables(requests: &Vec<PoiRequest>) -> (raws: Vec<RawPoiRequest>)
        ensures
            raws@.len() == requests@.len(),
            forall|i: int|
                0 <= i < raws@.len() ==> ((#[trigger] raws@[i]).deployment@, raws@[i].block_number@)
                    == raw_request(requests@[i]@),
    {
        let mut raws: Vec<RawPoiRequest> = Vec::new();
        let mut i: usize = 0;
        while i < requests.len()
            invariant
                i <= requests@.len(),
                raws@.len() == i,
                forall|j: int|
                    0 <= j < i ==> ((#[trigger] raws@[j]).deployment@, raws@[j].block_number@)
                        == raw_request(requests@[j]@),
            decreases requests@.len() - i,
        {
            let request = &requests[i];
            raws.push(
                RawPoiRequest {
                    deployment: request.deployment.0.clone(),
                    block_number: u64_to_decimal(request.block_number),
                },
            );
            i = i + 1;
        }
        raws
    }
}

impl IndexerVersion {
    pub fn query() -> (text: &'static str)
        ensures
            text@ == "query { version { version commit } }"@,
    {
        "query { version { version commit } }"
    }
}

impl SubgraphApiVersions {
    pub fn query() -> (text: &'static str)
        ensures
            text@
                == "query($subgraphId: String!) { apiVersions(subgraphId: $subgraphId) { version } }"@,
    {
        "query($subgraphId: String!) { apiVersions(subgraphId: $subgraphId) { version } }"
    }
}

impl EntityChangesInBlock {
    pub fn query() -> (text: &'static str)
        ensures
            text@
                == "query($subgraphId: String!, $blockNumber: Int!) { entityChangesInBlock(subgraphId: $subgraphId, blockNumber: $blockNumber) { updates { type entities } deletions { type entities } } }"@,
    {
        "query($subgraphId: String!, $blockNumber: Int!) { entityChangesInBlock(subgraphId: $subgraphId, blockNumber: $blockNumber) { updates { type entities } deletions { type entities } } }"
    }

    /// The variables for a subgraph and a block. A block number beyond
    /// `i64::MAX` cannot be asked for.
    pub fn variables(subgraph_id: &str, block_number: u64) -> (res: Option<EntityChangesVariables>)
        ensures
            res is Some <==> block_number <= i64::MAX,
            res matches Some(v) ==> v.subgraph_id@ == subgraph_id@ && v.block_number
                == block_number,
    {
        if block_number > 0x7fff_ffff_ffff_ffff {
            None
        } else {
            Some(
                EntityChangesVariables {
                    subgraph_id: String::from_str(subgraph_id),
                    block_number: block_number as i64,
                },
            )
        }
    }
}

impl CachedEthereumCalls {
    pub fn query() -> (text: &'static str)
        ensures
            text@
                == "query($network: String!, $blockHash: Bytes!) { cachedEthereumCalls(network: $network, blockHash: $blockHash) { idHash returnValue contractAddress } }"@,
    {
        "query($network: String!, $blockHash: Bytes!) { cachedEthereumCalls(network: $network, blockHash: $blockHash) { idHash returnValue contractAddress } }"
    }

    /// The variables for a network and the block with hash `block_hash`.
    pub fn variables(network: &str, block_hash: &[u8]) -> (variables: BlockVariables)
        ensures
            variables.network@ == network@,
            variables.block_hash@ == hex_encode(block_hash@),
    {
        block_variables(network, block_hash)
    }
}

impl BlockData {
    pub fn query() -> (text: &'static str)
        ensures
            text@
                == "query($network: String!, $blockHash: Bytes!) { blockData(network: $network, blockHash: $blockHash) }"@,
    {
        "query($network: String!, $blockHash: Bytes!) { blockData(network: $network, blockHash: $blockHash) }"
    }

    /// The variables for a network and the block with hash `block_hash`.
    pub fn variables(network: &str, block_hash: &[u8]) -> (variables: BlockVariables)
        ensures
            variables.network@ == network@,
            variables.block_hash@ == hex_encode(block_hash@),
    {
        block_variables(network, block_hash)
    }
}

} // verus!
