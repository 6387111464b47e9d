//! The rows of the store, as they are read and written.

use crate::hexcodec::{encode_hex, hex_encode, prefixed_hex};
use crate::types;
use crate::types::indexer_record_text;
use vstd::prelude::*;

verus! {

/// The identifier of a row.
pub type IntId = i32;

/// A point in time, in seconds since the Unix epoch.
pub type Timestamp = i64;

/// A block as stored.
#[derive(Debug)]
pub struct Block {
    pub id: IntId,
    pub network_id: IntId,
    pub number: i64,
    pub hash: Vec<u8>,
}

/// A block to be stored.
#[derive(Debug)]
pub struct NewBlock {
    pub network_id: IntId,
    pub number: i64,
    pub hash: Vec<u8>,
}

/// An indexer as stored. Exactly one of `address` and `name` identifies it.
#[derive(Debug)]
pub struct IndexerRow {
    pub id: IntId,
    pub name: Option<String>,
    pub address: Option<Vec<u8>>,
    pub created_at: Timestamp,
}

/// An indexer to be stored.
#[derive(Debug)]
pub struct NewIndexer {
    pub address: Option<Vec<u8>>,
    pub created_at: Timestamp,
}

/// A subgraph deployment as stored.
#[derive(Debug)]
pub struct SgDeployment {
    pub id: IntId,
    pub cid: String,
    pub network_id: IntId,
    pub created_at: Timestamp,
}

/// A subgraph deployment to be stored.
#[derive(Debug)]
pub struct NewSgDeployment {
    pub cid: String,
    pub created_at: Timestamp,
}

/// A proof of indexing as stored, with the rows it refers to.
#[derive(Debug)]
pub struct PoI {
    pub id: IntId,
    pub poi: Vec<u8>,
    pub created_at: Timestamp,
    pub sg_deployment: SgDeployment,
    pub indexer: IndexerRow,
    pub block: Block,
}

/// What contracts read of a stored proof of indexing.
pub struct PoIView {
    pub id: IntId,
    pub poi: Seq<u8>,
    pub cid: Seq<char>,
    pub indexer_id: IntId,
    pub block_number: i64,
    pub block_hash: Seq<u8>,
}

impl View for PoI {
    type V = PoIView;

    open spec fn view(&self) -> PoIView {
        PoIView {
            id: self.id,
            poi: self.poi@,
            cid: self.sg_deployment.cid@,
            indexer_id: self.indexer.id,
            block_number: self.block.number,
            block_hash: self.block.hash@,
        }
    }
}

impl PoI {
    /// The digest as lowercase hexadecimal text, without a prefix.
    pub fn poi_hex(&self) -> (text: String)
        ensures
            text@ == hex_encode(self.poi@),
    {
        encode_hex(self.poi.as_slice())
    }
}

/// A proof of indexing to be stored.
#[derive(Debug)]
pub struct NewPoI {
    pub poi: Vec<u8>,
    pub created_at: Timestamp,
    pub sg_deployment_id: IntId,
    pub indexer_id: IntId,
    pub block_id: IntId,
}

/// A diverging block as it is written into a report: in text.
#[derive(Debug)]
pub struct DivergingBlock {
    pub block_number: i64,
    pub block_hash: Option<String>,
    pub proof_of_indexing1: String,
    pub proof_of_indexing2: String,
}

/// A diverging block in text, as contracts see it.
pub struct DivergingBlockView {
    pub block_number: i64,
    pub block_hash: Option<Seq<char>>,
    pub proof_of_indexing1: Seq<char>,
    pub proof_of_indexing2: Seq<char>,
}

impl View for DivergingBlock {
    type V = DivergingBlockView;

    open spec fn view(&self) -> DivergingBlockView {
        DivergingBlockView {
            block_number: self.block_number,
            block_hash: match self.block_hash {
                Some(h) => Some(h@),
                None => None,
            },
            proof_of_indexing1: self.proof_of_indexing1@,
            proof_of_indexing2: self.proof_of_indexing2@,
        }
    }
}

/// The text form of a diverging block: hash and digests as `0x`-prefixed
/// lowercase hexadecimal text.
pub open spec fn diverging_block_text(block: types::DivergingBlock) -> DivergingBlockView {
    DivergingBlockView {
        block_number: block.block.number as i64,
        block_hash: match block.block.hash {
            Some(h) => Some(prefixed_hex(h@)),
            None => None,
        },
        proof_of_indexing1: prefixed_hex(block.proof_of_indexing1@),
        proof_of_indexing2: prefixed_hex(block.proof_of_indexing2@),
    }
}

impl DivergingBlock {
    /// Puts a diverging block into text. A block number that the store
    /// cannot hold, one beyond `i64::MAX`, gives nothing.
    pub fn from_diverging_block(block: types::DivergingBlock) -> (res: Option<DivergingBlock>)
        ensures
            res is Some <==> block.block.number <= i64::MAX,
            res matches Some(text) ==> text@ == diverging_block_text(block),
    {
        if block.block.number > 0x7fff_ffff_ffff_ffff {
            return None;
        }
        let block_hash = match block.block.hash {
            Some(h) => Some(h.to_string()),
            None => None,
        };
        Some(
            DivergingBlock {
                block_number: block.block.number as i64,
                block_hash,
                proof_of_indexing1: block.proof_of_indexing1.to_string(),
                proof_of_indexing2: block.proof_of_indexing2.to_string(),
            },
        )
    }
}

/// A report on where two stored proofs of indexing first diverge.
#[derive(Debug, Clone, Copy, PartialEq, Eq, Structural)]
pub struct PoiDivergenceBisectReport {
    pub id: IntId,
    pub poi1_id: IntId,
    pub poi2_id: IntId,
    pub divergence_block_id: IntId,
    pub created_at: Timestamp,
}

/// A proof of indexing as one flat record, all in text but for time and
/// block number.
#[derive(Debug)]
pub struct PoiRecord {
    pub timestamp: Timestamp,
    /// What names the indexer: its address in hexadecimal or, where it
    /// has none, its name; either without leading `0x` markers.
    pub indexer: String,
    pub deployment: String,
    pub block_number: i64,
    pub block_hash: Option<String>,
    pub proof_of_indexing: String,
}

impl PoiRecord {
    /// The record for `poi`, taken at `now`. A block number beyond
    /// `i64::MAX` has no record.
    pub fn from_poi(poi: &types::ProofOfIndexing, now: Timestamp) -> (res: Option<PoiRecord>)
        ensures
            res is Some <==> poi.block.number <= i64::MAX,
            res matches Some(record) ==> {
                &&& record.timestamp == now
                &&& record.indexer@ == indexer_record_text(poi@.indexer)
                &&& record.deployment@ == poi@.deployment
                &&& record.block_number == poi.block.number
                &&& match poi.block.hash {
                    Some(h) => record.block_hash matches Some(text) && text@ == prefixed_hex(h@),
                    None => record.block_hash is None,
                }
                &&& record.proof_of_indexing@ == prefixed_hex(poi.proof_of_indexing@)
            },
    {
        if poi.block.number > 0x7fff_ffff_ffff_ffff {
            return None;
        }
        let block_hash = match poi.block.hash {
            Some(h) => Some(h.to_string()),
            None => None,
        };
        Some(
            PoiRecord {
                timestamp: now,
                indexer: poi.indexer.record_text(),
                deployment: poi.deployment.0.clone(),
                block_number: poi.block.number as i64,
                block_hash,
                proof_of_indexing: poi.proof_of_indexing.to_string(),
            },
        )
    }
}

/// The comparison of two proofs of indexing of one deployment and block as
/// one flat record.
#[derive(Debug)]
pub struct CrossCheckReportRecord {
    pub timestamp: Timestamp,
    /// What names the two indexers: the address in hexadecimal or, where
    /// there is none, the name; either without leading `0x` markers.
    pub indexer1: String,
    pub indexer2: String,
    pub deployment: String,
    pub block_number: i64,
    pub block_hash: Option<String>,
    pub proof_of_indexing1: String,
    pub proof_of_indexing2: String,
}

impl CrossCheckReportRecord {
    /// The record for `report`, taken at `now`: deployment and block are
    /// those of its first proof of indexing. A block number beyond
    /// `i64::MAX` has no record.
    pub fn from_report(report: &types::POICrossCheckReport, now: Timestamp) -> (res: Option<
        CrossCheckReportRecord,
    >)
        ensures
            res is Some <==> report.poi1.block.number <= i64::MAX,
            res matches Some(record) ==> {
                &&& record.timestamp == now
                &&& record.indexer1@ == indexer_record_text(report.poi1@.indexer)
                &&& record.indexer2@ == indexer_record_text(report.poi2@.indexer)
                &&& record.deployment@ == report.poi1@.deployment
                &&& record.block_number == report.poi1.block.number
                &&& match report.poi1.block.hash {
                    Some(h) => record.block_hash matches Some(text) && text@ == prefixed_hex(h@),
                    None => record.block_hash is None,
                }
                &&& record.proof_of_indexing1@ == prefixed_hex(report.poi1.proof_of_indexing@)
                &&& record.proof_of_indexing2@ == prefixed_hex(report.poi2.proof_of_indexing@)
            },
    {
        if report.poi1.block.number > 0x7fff_ffff_ffff_ffff {
            return None;
        }
        let block_hash = match report.poi1.block.hash {
            Some(h) => Some(h.to_string()),
            None => None,
        };
        Some(
            CrossCheckReportRecord {
                timestamp: now,
                indexer1: report.poi1.indexer.record_text(),
                indexer2: report.poi2.indexer.record_text(),
                deployment: report.poi1.deployment.0.clone(),
                block_number: report.poi1.block.number as i64,
                block_hash,
                proof_of_indexing1: report.poi1.proof_of_indexing.to_string(),
                proof_of_indexing2: report.poi2.proof_of_indexing.to_string(),
            },
        )
    }
}

} // verus!
