//! What an indexer's answers mean: from the texts of a response to the
//! values of the cross-checker, and from a list of requests to the batches
//! in which they are sent.

use crate::error::ErrorKind;
use crate::hexcodec::{
    decode_bytes, decode_prefixed, hex_decode_exact, trim_0x, DecodeError,
};
use crate::polling::{poi_views, request_views};
use crate::text::{
    contains_bytes, join, joined, occurs_in, parse_u64, parsed_u64, part_views,
};
use crate::types::{
    bytes32_of, BlockPointer, Bytes32, CachedEthereumCall, Indexer, IndexerView, IndexingStatus,
    IndexingStatusView, PoiRequest, PoiRequestView, PoiView, ProofOfIndexing, SubgraphDeployment,
};
use vstd::prelude::*;
use vstd::string::*;
use vstd::utf8::encode_utf8;

verus! {

/// A block as an indexer names it in an indexing status.
#[derive(Debug)]
pub struct RawBlock {
    pub number: String,
    pub hash: String,
}

/// The state of one chain in an indexing status.
#[derive(Debug)]
pub struct RawChainStatus {
    pub network: String,
    pub latest_block: Option<RawBlock>,
    pub earliest_block: Option<RawBlock>,
}

/// An indexing status as an indexer sends it.
#[derive(Debug)]
pub struct RawIndexingStatus {
    pub subgraph: String,
    pub chains: Vec<RawChainStatus>,
}

/// A proof of indexing as an indexer sends it.
#[derive(Debug)]
pub struct RawPoi {
    pub deployment: String,
    pub block_number: String,
    pub block_hash: Option<String>,
    pub proof_of_indexing: String,
}

/// A request for a proof of indexing as it is sent to an indexer.
#[derive(Debug)]
pub struct RawPoiRequest {
    pub deployment: String,
    pub block_number: String,
}

/// Why an answer of an indexer could not be taken over.
#[derive(Debug, Clone, Copy, PartialEq, Eq, Structural)]
pub enum ConversionError {
    /// The status names no chain.
    ChainStatusMissing,
    /// The deployment has not started indexing: a block is missing.
    NotStarted,
    /// A block number is no decimal number.
    InvalidBlockNumber,
    /// A block hash is no 32-byte hexadecimal text.
    InvalidBlockHash,
    /// A deployment is no content identifier.
    InvalidDeployment,
    /// A digest is no 32-byte hexadecimal text.
    InvalidPoi,
}

/// Whether `c` is a character of the base-58 alphabet: a digit or an ASCII
/// letter other than `0`, `O`, `I` and `l`.
pub open spec fn is_base58(c: u8) -> bool {
    (0x31 <= c <= 0x39) || (0x41 <= c <= 0x5a && c != 0x49 && c != 0x4f) || (0x61 <= c <= 0x7a && c
        != 0x6c)
}

/// Whether `text` has the form of a version-0 content identifier: `Qm`
/// and 44 more characters, all of the base-58 alphabet.
pub open spec fn is_cid_v0(text: Seq<u8>) -> bool {
    &&& text.len() == 46
    &&& text[0] == 0x51
    &&& text[1] == 0x6d
    &&& forall|i: int| 0 <= i < text.len() ==> is_base58(#[trigger] text[i])
}

/// Whether `s` has the form of a version-0 content identifier.
#[verifier::loop_isolation(false)]
pub fn is_valid_cid(s: &str) -> (valid: bool)
    ensures
        valid == is_cid_v0(s.spec_bytes()),
{
    let text = s.as_bytes();
    if text.len() != 46 || text[0] != 0x51 || text[1] != 0x6d {
        return false;
    }
    let mut i: usize = 0;
    while i < text.len()
        invariant
            i <= text@.len(),
            forall|j: int| 0 <= j < i ==> is_base58(#[trigger] text@[j]),
        decreases text@.len() - i,
    {
        let c = text[i];
        let ok = (0x31 <= c && c <= 0x39) || (0x41 <= c && c <= 0x5a && c != 0x49 && c != 0x4f) || (
        0x61 <= c && c <= 0x7a && c != 0x6c);
        if !ok {
            assert(!is_base58(text@[i as int]));
            return false;
        }
        i = i + 1;
    }
    true
}

/// The 32 bytes that `text` names in hexadecimal, if it names any.
pub open spec fn named_bytes32(text: Seq<char>) -> Option<Seq<u8>> {
    match hex_decode_exact(trim_0x(encode_utf8(text)), 32) {
        Ok(bytes) => Some(bytes),
        Err(_) => None,
    }
}

/// The indexing status that `raw` stands for, reported by `indexer`.
///
/// The first chain counts. Both its latest and its earliest block must be
/// there; the numbers must be decimal, the hash 32 bytes in hexadecimal and
/// the deployment a content identifier. What is wrong first, in this order,
/// decides the error: latest number, latest hash, earliest number, deployment.
pub open spec fn status_of_raw(indexer: IndexerView, raw: RawIndexingStatus) -> Result<
    IndexingStatusView,
    ConversionError,
> {
    if raw.chains@.len() == 0 {
        Err(ConversionError::ChainStatusMissing)
    } else {
        let chain = raw.chains@[0];
        match (chain.latest_block, chain.earliest_block) {
            (Some(latest), Some(earliest)) => {
                let number = parsed_u64(encode_utf8(latest.number@));
                let hash = named_bytes32(latest.hash@);
                let earliest_number = parsed_u64(encode_utf8(earliest.number@));
                if number is None {
                    Err(ConversionError::InvalidBlockNumber)
                } else if hash is None {
                    Err(ConversionError::InvalidBlockHash)
                } else if earliest_number is None {
                    Err(ConversionError::InvalidBlockNumber)
                } else if !is_cid_v0(encode_utf8(raw.subgraph@)) {
                    Err(ConversionError::InvalidDeployment)
                } else {
                    Ok(
                        IndexingStatusView {
                            indexer,
                            deployment: raw.subgraph@,
                            network: chain.network@,
                            latest_block: BlockPointer {
                                number: number.unwrap(),
                                hash: Some(bytes32_of(hash.unwrap())),
                            },
                            earliest_block_num: earliest_number.unwrap(),
                        },
                    )
                }
            },
            _ => Err(ConversionError::NotStarted),
        }
    }
}

/// Reads 32 bytes from hexadecimal text.
fn read_bytes32(text: &String) -> (value: Option<Bytes32>)
    ensures
        match named_bytes32(text@) {
            Some(bytes) => value == Some(bytes32_of(bytes)),
            None => value is None,
        },
{
    match Bytes32::try_from_str(text.as_str()) {
        Ok(value) => {
            proof {
                Bytes32::lemma_bytes32_of(value);
            }
            Some(value)
        },
        Err(_) => None,
    }
}

/// Takes over one indexing status from the answer of `indexer`.
pub fn indexing_status_from_raw(indexer: &Indexer, raw: &RawIndexingStatus) -> (res: Result<
    IndexingStatus,
    ConversionError,
>)
    ensures
        match status_of_raw(indexer@, *raw) {
            Ok(status) => res matches Ok(s) && s@ == status,
            Err(e) => res matches Err(err) && err == e,
        },
{
    if raw.chains.len() == 0 {
        return Err(ConversionError::ChainStatusMissing);
    }
    let chain = &raw.chains[0];
    let (latest, earliest) = match (&chain.latest_block, &chain.earliest_block) {
        (Some(latest), Some(earliest)) => (latest, earliest),
        _ => {
            return Err(ConversionError::NotStarted);
        },
    };
    let number = match parse_u64(latest.number.as_str()) {
        Some(n) => n,
        None => {
            return Err(ConversionError::InvalidBlockNumber);
        },
    };
    let hash = match read_bytes32(&latest.hash) {
        Some(h) => h,
        None => {
            return Err(ConversionError::InvalidBlockHash);
        },
    };
    let earliest_block_num = match parse_u64(earliest.number.as_str()) {
        Some(n) => n,
        None => {
            return Err(ConversionError::InvalidBlockNumber);
        },
    };
    if !is_valid_cid(raw.subgraph.as_str()) {
        return Err(ConversionError::InvalidDeployment);
    }
    Ok(
        IndexingStatus {
            indexer: indexer.clone(),
            deployment: SubgraphDeployment(raw.subgraph.clone()),
            network: chain.network.clone(),
            latest_block: BlockPointer { number, hash: Some(hash) },
            earliest_block_num,
        },
    )
}

/// The statuses among `raws` that can be taken over, in order.
pub open spec fn statuses_of_raw(indexer: IndexerView, raws: Seq<RawIndexingStatus>) -> Seq<
    IndexingStatusView,
>
    decreases raws.len(),
{
    if raws.len() == 0 {
        Seq::empty()
    } else {
        let before = statuses_of_raw(indexer, raws.drop_last());
        match status_of_raw(indexer, raws.last()) {
            Ok(status) => before.push(status),
            Err(_) => before,
        }
    }
}

/// Takes over the indexing statuses of an answer. A status that cannot be
/// taken over is left out; the others are kept.
pub fn convert_statuses(indexer: &Indexer, raws: &Vec<RawIndexingStatus>) -> (statuses: Vec<
    IndexingStatus,
>)
    ensures
        crate::block_choice::status_views(statuses@) == statuses_of_raw(indexer@, raws@),
{
    let mut statuses: Vec<IndexingStatus> = Vec::new();
    let mut i: usize = 0;
    while i < raws.len()
        invariant
            i <= raws@.len(),
            crate::block_choice::status_views(statuses@) == statuses_of_raw(
                indexer@,
                raws@.take(i as int),
            ),
        decreases raws@.len() - i,
    {
        proof {
            assert(raws@.take(i + 1).drop_last() =~= raws@.take(i as int));
            assert(raws@.take(i + 1).last() == raws@[i as int]);
        }
        match indexing_status_from_raw(indexer, &raws[i]) {
            Ok(status) => {
                let ghost before = crate::block_choice::status_views(statuses@);
                let ghost view = status@;
                statuses.push(status);
                assert(crate::block_choice::status_views(statuses@) =~= before.push(view));
            },
            Err(_) => {},
        }
        i = i + 1;
    }
    assert(raws@.take(i as int) =~= raws@);
    statuses
}

/// The proof of indexing that `raw` stands for, computed by `indexer`.
///
/// The deployment must be a content identifier, the block number decimal,
/// the block hash, where there is one, and the digest 32 bytes in
/// hexadecimal. What is wrong first, in this order, decides the error.
pub open spec fn poi_of_raw(indexer: IndexerView, raw: RawPoi) -> Result<PoiView, ConversionError> {
    let number = parsed_u64(encode_utf8(raw.block_number@));
    let hash = match raw.block_hash {
        Some(text) => named_bytes32(text@),
        None => None,
    };
    let digest = named_bytes32(raw.proof_of_indexing@);
    if !is_cid_v0(encode_utf8(raw.deployment@)) {
        Err(ConversionError::InvalidDeployment)
    } else if number is None {
        Err(ConversionError::InvalidBlockNumber)
    } else if raw.block_hash is Some && hash is None {
        Err(ConversionError::InvalidBlockHash)
    } else if digest is None {
        Err(ConversionError::InvalidPoi)
    } else {
        Ok(
            PoiView {
                indexer,
                deployment: raw.deployment@,
                block: BlockPointer {
                    number: number.unwrap(),
                    hash: match hash {
                        Some(bytes) => Some(bytes32_of(bytes)),
                        None => None,
                    },
                },
                proof_of_indexing: bytes32_of(digest.unwrap()),
            },
        )
    }
}

/// Takes over one proof of indexing from the answer of `indexer`.
pub fn poi_from_raw(indexer: &Indexer, raw: &RawPoi) -> (res: Result<
    ProofOfIndexing,
    ConversionError,
>)
    ensures
        match poi_of_raw(indexer@, *raw) {
            Ok(poi) => res matches Ok(p) && p@ == poi,
            Err(e) => res matches Err(err) && err == e,
        },
{
    if !is_valid_cid(raw.deployment.as_str()) {
        return Err(ConversionError::InvalidDeployment);
    }
    let number = match parse_u64(raw.block_number.as_str()) {
        Some(n) => n,
        None => {
            return Err(ConversionError::InvalidBlockNumber);
        },
    };
    let hash = match &raw.block_hash {
        Some(text) => match read_bytes32(text) {
            Some(h) => Some(h),
            None => {
                return Err(ConversionError::InvalidBlockHash);
            },
        },
        None => None,
    };
    let digest = match read_bytes32(&raw.proof_of_indexing) {
        Some(d) => d,
        None => {
            return Err(ConversionError::InvalidPoi);
        },
    };
    Ok(
        ProofOfIndexing {
            indexer: indexer.clone(),
            deployment: SubgraphDeployment(raw.deployment.clone()),
            block: BlockPointer { number, hash },
            proof_of_indexing: digest,
        },
    )
}

/// The first of `raws` that cannot be taken over, or `raws.len()`.
pub open spec fn first_unusable(indexer: IndexerView, raws: Seq<RawPoi>) -> int
    decreases raws.len(),
{
    if raws.len() == 0 {
        0
    } else if poi_of_raw(indexer, raws[0]) is Err {
        0
    } else {
        1 + first_unusable(indexer, raws.skip(1))
    }
}

/// Takes over the proofs of indexing of one answer: all of them, or the
/// error of the first that cannot be taken over.
pub fn convert_pois(indexer: &Indexer, raws: &Vec<RawPoi>) -> (res: Result<
    Vec<ProofOfIndexing>,
    ConversionError,
>)
    ensures
        match res {
            Ok(pois) => {
                &&& pois@.len() == raws@.len()
                &&& forall|i: int|
                    0 <= i < pois@.len() ==> poi_of_raw(indexer@, raws@[i]) == Ok::<
                        PoiView,
                        ConversionError,
                    >(#[trigger] poi_views(pois@)[i])
            },
            Err(e) => {
                let at = first_unusable(indexer@, raws@);
                &&& at < raws@.len()
                &&& poi_of_raw(indexer@, raws@[at]) == Err::<PoiView, ConversionError>(e)
            },
        },
{
    let mut pois: Vec<ProofOfIndexing> = Vec::new();
    let mut i: usize = 0;
    assert(raws@.skip(0) =~= raws@);
    while i < raws.len()
        invariant
            i <= raws@.len(),
            pois@.len() == i,
            forall|j: int|
                0 <= j < i ==> poi_of_raw(indexer@, raws@[j]) == Ok::<PoiView, ConversionError>(
                    #[trigger] poi_views(pois@)[j],
                ),
            first_unusable(indexer@, raws@) == i + first_unusable(indexer@, raws@.skip(i as int)),
        decreases raws@.len() - i,
    {
        proof {
            assert(raws@.skip(i as int)[0] == raws@[i as int]);
            assert(raws@.skip(i as int).skip(1) =~= raws@.skip(i + 1));
        }
        match poi_from_raw(indexer, &raws[i]) {
            Ok(poi) => {
                let ghost before = poi_views(pois@);
                let ghost view = poi@;
                pois.push(poi);
                proof {
                    assert(poi_views(pois@) =~= before.push(view));
                    assert forall|j: int| 0 <= j < i + 1 implies poi_of_raw(indexer@, raws@[j])
                        == Ok::<PoiView, ConversionError>(#[trigger] poi_views(pois@)[j]) by {
                        if j < i {
                            assert(poi_views(pois@)[j] == before[j]);
                        }
                    }
                }
            },
            Err(e) => {
                return Err(e);
            },
        }
        i = i + 1;
    }
    Ok(pois)
}

/// Why asking for a single proof of indexing gave none.
#[derive(Debug, Clone, Copy, PartialEq, Eq, Structural)]
pub enum SinglePoiError {
    /// The indexer returned no proof of indexing.
    NoneReturned,
    /// The indexer returned more than one.
    MultipleReturned,
}

/// The one proof of indexing of an answer to a single request.
pub fn single_poi(pois: Vec<ProofOfIndexing>) -> (res: Result<ProofOfIndexing, SinglePoiError>)
    ensures
        pois@.len() == 0 ==> res matches Err(SinglePoiError::NoneReturned),
        pois@.len() == 1 ==> (res matches Ok(poi) && poi@ == pois@[0]@),
        pois@.len() > 1 ==> res matches Err(SinglePoiError::MultipleReturned),
{
    if pois.len() == 0 {
        Err(SinglePoiError::NoneReturned)
    } else if pois.len() == 1 {
        Ok(pois[0].clone())
    } else {
        Err(SinglePoiError::MultipleReturned)
    }
}

/// What is wrong with the response to a query.
#[derive(Debug)]
pub enum ResponseError {
    /// The indexer reported errors; the text names them.
    Indexer(String),
    /// The response holds neither errors nor data.
    NoData,
}

/// How the message about reported errors begins.
pub open spec fn errors_preamble() -> Seq<char> {
    "Indexer returned errors: "@
}

/// The data of a response. Errors and data exclude each other: where
/// errors are reported, the data is not looked at, and the messages are
/// joined with commas into one.
pub fn interpret_response<T>(errors: Option<Vec<String>>, data: Option<T>) -> (res: Result<
    T,
    ResponseError,
>)
    ensures
        match errors {
            Some(messages) => res matches Err(ResponseError::Indexer(text)) && text@
                == errors_preamble() + joined(part_views(messages@), ","@),
            None => match data {
                Some(d) => res matches Ok(value) && value == d,
                None => res matches Err(ResponseError::NoData),
            },
        },
{
    match errors {
        Some(messages) => {
            let mut text = String::from_str("Indexer returned errors: ");
            let list = join(&messages, ",");
            text.append(list.as_str());
            Err(ResponseError::Indexer(text))
        },
        None => match data {
            Some(d) => Ok(d),
            None => Err(ResponseError::NoData),
        },
    }
}

/// What an indexer says when it does not know the query for public
/// proofs of indexing.
pub open spec fn unsupported_marker() -> Seq<u8> {
    "Cannot query field \"publicProofsOfIndexing\" on type \"Query\""@.map_values(|c: char| c as u8)
}

/// The kind of a failed query for proofs of indexing, judged by its
/// message: the indexer lacks the operation where the message says so,
/// and has otherwise answered out of protocol.
pub open spec fn failure_kind(message: Seq<u8>) -> ErrorKind {
    if occurs_in(message, unsupported_marker()) {
        ErrorKind::NotSupported
    } else {
        ErrorKind::Protocol
    }
}

/// The kind of a failed query for proofs of indexing.
pub fn classify_failure(message: &str) -> (kind: ErrorKind)
    ensures
        kind == failure_kind(message.spec_bytes()),
{
    let marker = "Cannot query field \"publicProofsOfIndexing\" on type \"Query\"";
    proof {
        reveal_strlit("Cannot query field \"publicProofsOfIndexing\" on type \"Query\"");
        assert(is_ascii(marker)) by {
            reveal_strlit("Cannot query field \"publicProofsOfIndexing\" on type \"Query\"");
            vstd::utf8::is_ascii_chars_nat_bound(marker@);
        }
        is_ascii_spec_bytes(marker);
        assert(marker.spec_bytes() =~= unsupported_marker());
    }
    if contains_bytes(message.as_bytes(), marker.as_bytes()) {
        ErrorKind::NotSupported
    } else {
        ErrorKind::Protocol
    }
}

/// How many proofs of indexing are asked for in one call unless told otherwise.
pub const DEFAULT_POI_BATCH_SIZE: usize = 1;

/// The collection of proofs of indexing from one indexer, batch by batch.
///
/// The caller sends the batch that [`PoiCollection::next_batch`] names and
/// hands the answer to [`PoiCollection::record`], until no batch is left.
#[derive(Debug)]
pub struct PoiCollection {
    requests: Vec<PoiRequest>,
    batch_size: usize,
    next: usize,
    pois: Vec<ProofOfIndexing>,
    outcomes: Vec<bool>,
    stopped: bool,
}

/// A collection as contracts see it.
pub struct PoiCollectionView {
    /// All requests for the indexer.
    pub requests: Seq<PoiRequestView>,
    /// The most requests that go into one call.
    pub batch_size: nat,
    /// How many requests have been sent.
    pub next: nat,
    /// The proofs of indexing received so far.
    pub pois: Seq<PoiView>,
    /// Whether each call so far succeeded: one sample per call.
    pub outcomes: Seq<bool>,
    /// Whether the indexer has turned out not to support the query.
    pub stopped: bool,
}

impl View for PoiCollection {
    type V = PoiCollectionView;

    closed spec fn view(&self) -> PoiCollectionView {
        PoiCollectionView {
            requests: request_views(self.requests@),
            batch_size: self.batch_size as nat,
            next: self.next as nat,
            pois: poi_views(self.pois@),
            outcomes: self.outcomes@,
            stopped: self.stopped,
        }
    }
}

impl PoiCollectionView {
    /// What holds of every collection.
    pub open spec fn wf(self) -> bool {
        self.batch_size >= 1 && self.next <= self.requests.len()
    }

    /// Whether nothing is left to ask.
    pub open spec fn done(self) -> bool {
        self.stopped || self.next >= self.requests.len()
    }

    /// Where the batch to send next ends.
    pub open spec fn batch_end(self) -> nat {
        if self.next + self.batch_size <= self.requests.len() {
            self.next + self.batch_size
        } else {
            self.requests.len()
        }
    }

    /// The batch to send next: the requests that follow those sent, as many
    /// as fit into one call.
    pub open spec fn batch(self) -> Seq<PoiRequestView> {
        self.requests.subrange(self.next as int, self.batch_end() as int)
    }

    /// The collection after the answer `result` to its batch. A failed call
    /// contributes nothing; one that shows that the indexer does not support
    /// the query ends the collection.
    pub open spec fn after(self, result: Result<Seq<PoiView>, ErrorKind>) -> PoiCollectionView {
        if self.done() {
            self
        } else {
            match result {
                Ok(pois) => PoiCollectionView {
                    next: self.batch_end(),
                    pois: self.pois + pois,
                    outcomes: self.outcomes.push(true),
                    ..self
                },
                Err(kind) => PoiCollectionView {
                    next: self.batch_end(),
                    outcomes: self.outcomes.push(false),
                    stopped: kind == ErrorKind::NotSupported,
                    ..self
                },
            }
        }
    }
}

/// Every answer takes a collection that is not done closer to its end, and
/// no batch is larger than the batch size.
pub proof fn lemma_collection_progress(c: PoiCollectionView, result: Result<Seq<PoiView>, ErrorKind>)
    requires
        c.wf(),
        !c.done(),
    ensures
        c.after(result).wf(),
        1 <= c.batch().len() <= c.batch_size,
        c.after(result).next > c.next,
        c.after(result).outcomes.len() == c.outcomes.len() + 1,
{
}

impl PoiCollection {
    /// A collection for `requests`, sent `batch_size` at a time. A batch
    /// size of zero gives none.
    pub fn new(requests: Vec<PoiRequest>, batch_size: usize) -> (res: Option<PoiCollection>)
        ensures
            res is Some == (batch_size >= 1),
            res matches Some(c) ==> c@ == (PoiCollectionView {
                requests: request_views(requests@),
                batch_size: batch_size as nat,
                next: 0,
                pois: Seq::empty(),
                outcomes: Seq::empty(),
                stopped: false,
            }) && c@.wf(),
    {
        if batch_size == 0 {
            return None;
        }
        let c = PoiCollection {
            requests,
            batch_size,
            next: 0,
            pois: Vec::new(),
            outcomes: Vec::new(),
            stopped: false,
        };
        assert(poi_views(c.pois@) =~= Seq::empty());
        Some(c)
    }

    /// The batch to send next, or nothing when the collection is done.
    pub fn next_batch(&self) -> (batch: Option<Vec<PoiRequest>>)
        requires
            self@.wf(),
        ensures
            batch is None == self@.done(),
            batch matches Some(b) ==> request_views(b@) == self@.batch(),
    {
        if self.stopped || self.next >= self.requests.len() {
            return None;
        }
        let end = if self.requests.len() - self.next >= self.batch_size {
            self.next + self.batch_size
        } else {
            self.requests.len()
        };
        let mut batch: Vec<PoiRequest> = Vec::new();
        let mut i: usize = self.next;
        let ghost all = request_views(self.requests@);
        while i < end
            invariant
                self.next <= i <= end <= self.requests@.len(),
                all == request_views(self.requests@),
                request_views(batch@) == all.subrange(self.next as int, i as int),
            decreases end - i,
        {
            let ghost before = request_views(batch@);
            let copy = self.requests[i].clone();
            batch.push(copy);
            proof {
                assert(all[i as int] == self.requests@[i as int]@);
                assert(request_views(batch@) =~= before.push(all[i as int]));
                assert(all.subrange(self.next as int, i + 1) =~= all.subrange(
                    self.next as int,
                    i as int,
                ).push(all[i as int]));
            }
            i = i + 1;
        }
        Some(batch)
    }

    /// Takes the answer to the batch that was sent.
    pub fn record(&mut self, result: Result<Vec<ProofOfIndexing>, ErrorKind>)
        requires
            old(self)@.wf(),
        ensures
            final(self)@.wf(),
            final(self)@ == old(self)@.after(
                match result {
                    Ok(pois) => Ok(poi_views(pois@)),
                    Err(kind) => Err(kind),
                },
            ),
    {
        if self.stopped || self.next >= self.requests.len() {
            return ;
        }
        let end = if self.requests.len() - self.next >= self.batch_size {
            self.next + self.batch_size
        } else {
            self.requests.len()
        };
        self.next = end;
        match result {
            Ok(found) => {
                self.outcomes.push(true);
                let ghost before = poi_views(self.pois@);
                let mut j: usize = 0;
                while j < found.len()
                    invariant
                        j <= found@.len(),
                        poi_views(self.pois@) == before + poi_views(found@).take(j as int),
                        self.requests == old(self).requests,
                        self.batch_size == old(self).batch_size,
                        self.next == end,
                        self.outcomes@ == old(self).outcomes@.push(true),
                        self.stopped == old(self).stopped,
                    decreases found@.len() - j,
                {
                    let copy = found[j].clone();
                    let ghost so_far = poi_views(self.pois@);
                    self.pois.push(copy);
                    proof {
                        assert(poi_views(found@)[j as int] == copy@);
                        assert(poi_views(self.pois@) =~= so_far.push(copy@));
                        assert(poi_views(found@).take(j + 1) =~= poi_views(found@).take(
                            j as int,
                        ).push(copy@));
                    }
                    j = j + 1;
                }
                assert(poi_views(found@).take(j as int) =~= poi_views(found@));
            },
            Err(kind) => {
                self.outcomes.push(false);
                self.stopped = match kind {
                    ErrorKind::NotSupported => true,
                    _ => false,
                };
            },
        }
    }

    /// Whether nothing is left to ask.
    pub fn is_done(&self) -> (done: bool)
        ensures
            done == self@.done(),
    {
        self.stopped || self.next >= self.requests.len()
    }

    /// The proofs of indexing received, and for each call whether it succeeded.
    pub fn finish(self) -> (res: (Vec<ProofOfIndexing>, Vec<bool>))
        ensures
            poi_views(res.0@) == self@.pois,
            res.1@ == self@.outcomes,
    {
        (self.pois, self.outcomes)
    }
}

/// The cached call that three hexadecimal texts stand for. Each must
/// start with `0x`; the first that is malformed decides the error.
pub open spec fn cached_call_of_raw(id_hash: Seq<u8>, return_value: Seq<u8>, contract_address: Seq<u8>) -> Result<
    (Seq<u8>, Seq<u8>, Seq<u8>),
    DecodeError,
> {
    match decode_prefixed(id_hash) {
        Err(e) => Err(e),
        Ok(id) => match decode_prefixed(return_value) {
            Err(e) => Err(e),
            Ok(value) => match decode_prefixed(contract_address) {
                Err(e) => Err(e),
                Ok(address) => Ok((id, value, address)),
            },
        },
    }
}

/// Takes over one cached Ethereum call from the answer of an indexer.
pub fn cached_call_from_raw(id_hash: &str, return_value: &str, contract_address: &str) -> (res: Result<
    CachedEthereumCall,
    DecodeError,
>)
    ensures
        match cached_call_of_raw(
            id_hash.spec_bytes(),
            return_value.spec_bytes(),
            contract_address.spec_bytes(),
        ) {
            Ok((id, value, address)) => res matches Ok(call) && call.id_hash@ == id
                && call.return_value@ == value && call.contract_address@ == address,
            Err(e) => res matches Err(err) && err == e,
        },
{
    let id = match decode_bytes(id_hash) {
        Ok(v) => v,
        Err(e) => {
            return Err(e);
        },
    };
    let value = match decode_bytes(return_value) {
        Ok(v) => v,
        Err(e) => {
            return Err(e);
        },
    };
    let address = match decode_bytes(contract_address) {
        Ok(v) => v,
        Err(e) => {
            return Err(e);
        },
    };
    Ok(CachedEthereumCall { id_hash: id, return_value: value, contract_address: address })
}

} // verus!
