use cross_checker::error::ErrorKind;
use cross_checker::evidence::{
    entity_changes_from_raw, evidence_plan, EntityChangesError, EntityDeletions, EntityUpdates,
    EvidenceKind, RunIndexer,
};
use cross_checker::bisect::{BisectionRun, ProbeResult};
use cross_checker::hexcodec::{DecodeError, HexError};
use cross_checker::indexer_queries::{
    BlockData, CachedEthereumCalls, EntityChangesInBlock, IndexerVersion, IndexingStatuses,
    ProofsOfIndexing, SubgraphApiVersions, Typename,
};
use cross_checker::indexer_client::{
    cached_call_from_raw, classify_failure, convert_pois, convert_statuses,
    indexing_status_from_raw, interpret_response, is_valid_cid, poi_from_raw, single_poi, ConversionError, PoiCollection, RawBlock, RawChainStatus,
    RawIndexingStatus, RawPoi, ResponseError, SinglePoiError, DEFAULT_POI_BATCH_SIZE,
};
use cross_checker::types::{
    BlockPointer, Bytes32, Indexer, PoiRequest, ProofOfIndexing, SubgraphDeployment,
};

const CID: &str = "QmYwAPJzv5CZsnA625s3Xf2nemtYgPpHdWEz79ojWnPbdG";

fn indexer() -> Indexer {
    Indexer::new(vec![7; 20], Some("seven".to_string()))
}

fn hash_text(fill: &str) -> String {
    "0x".to_string() + &fill.repeat(32)
}

fn raw_status(subgraph: &str, latest: Option<(&str, String)>, earliest: Option<&str>) -> RawIndexingStatus {
    RawIndexingStatus {
        subgraph: subgraph.to_string(),
        chains: vec![RawChainStatus {
            network: "mainnet".to_string(),
            latest_block: latest.map(|(n, h)| RawBlock { number: n.to_string(), hash: h }),
            earliest_block: earliest.map(|n| RawBlock { number: n.to_string(), hash: String::new() }),
        }],
    }
}

fn raw_poi(deployment: &str, number: &str, hash: Option<String>, digest: String) -> RawPoi {
    RawPoi {
        deployment: deployment.to_string(),
        block_number: number.to_string(),
        block_hash: hash,
        proof_of_indexing: digest,
    }
}

fn request(deployment: &str, block: u64) -> PoiRequest {
    PoiRequest { deployment: SubgraphDeployment(deployment.to_string()), block_number: block }
}

fn poi(block: u64) -> ProofOfIndexing {
    ProofOfIndexing {
        indexer: indexer(),
        deployment: SubgraphDeployment(CID.to_string()),
        block: BlockPointer { number: block, hash: None },
        proof_of_indexing: Bytes32([block as u8; 32]),
    }
}

#[test]
fn content_identifiers() {
    assert!(is_valid_cid(CID));
    assert!(!is_valid_cid(""));
    assert!(!is_valid_cid("Qm"));
    assert!(!is_valid_cid(&CID[..45]));
    assert!(!is_valid_cid(&(CID.to_string() + "1")));
    assert!(!is_valid_cid(&CID.replace("Qm", "Qn")));
    assert!(!is_valid_cid(&CID.replace('5', "0")));
    assert!(!is_valid_cid(&CID.replace('5', "O")));
    assert!(!is_valid_cid(&CID.replace('5', "I")));
    assert!(!is_valid_cid(&CID.replace('5', "l")));
    assert!(!is_valid_cid(&CID.replace('5', "+")));
}

#[test]
fn takes_over_an_indexing_status() {
    let raw = raw_status(CID, Some(("120", hash_text("ab"))), Some("3"));
    let status = indexing_status_from_raw(&indexer(), &raw).unwrap();
    assert!(status.indexer.same_as(&indexer()));
    assert_eq!(status.deployment.0, CID);
    assert_eq!(status.network, "mainnet");
    assert!(status.latest_block == BlockPointer { number: 120, hash: Some(Bytes32([0xab; 32])) });
    assert_eq!(status.earliest_block_num, 3);
}

#[test]
fn indexing_status_errors_in_order() {
    let convert = |raw: RawIndexingStatus| indexing_status_from_raw(&indexer(), &raw).err();
    let no_chain = RawIndexingStatus { subgraph: CID.to_string(), chains: vec![] };
    assert_eq!(convert(no_chain), Some(ConversionError::ChainStatusMissing));
    assert_eq!(convert(raw_status(CID, None, Some("3"))), Some(ConversionError::NotStarted));
    assert_eq!(
        convert(raw_status("bad", Some(("x", "y".to_string())), None)),
        Some(ConversionError::NotStarted)
    );
    assert_eq!(
        convert(raw_status("bad", Some(("x", "y".to_string())), Some("z"))),
        Some(ConversionError::InvalidBlockNumber)
    );
    assert_eq!(
        convert(raw_status("bad", Some(("1", "y".to_string())), Some("z"))),
        Some(ConversionError::InvalidBlockHash)
    );
    assert_eq!(
        convert(raw_status("bad", Some(("1", hash_text("ab"))), Some("z"))),
        Some(ConversionError::InvalidBlockNumber)
    );
    assert_eq!(
        convert(raw_status("bad", Some(("1", hash_text("ab"))), Some("0"))),
        Some(ConversionError::InvalidDeployment)
    );
}

#[test]
fn statuses_that_cannot_be_taken_over_are_left_out() {
    let raws = vec![
        raw_status(CID, Some(("10", hash_text("01"))), Some("0")),
        raw_status(CID, None, None),
        raw_status(CID, Some(("12", hash_text("02"))), Some("0")),
    ];
    let statuses = convert_statuses(&indexer(), &raws);
    let latest: Vec<u64> = statuses.iter().map(|s| s.latest_block.number).collect();
    assert_eq!(latest, vec![10, 12]);
    assert!(convert_statuses(&indexer(), &vec![]).is_empty());
}

#[test]
fn takes_over_a_proof_of_indexing() {
    let raw = raw_poi(CID, "7", Some(hash_text("cd")), hash_text("aa"));
    let poi = poi_from_raw(&indexer(), &raw).unwrap();
    assert!(poi.block == BlockPointer { number: 7, hash: Some(Bytes32([0xcd; 32])) });
    assert!(poi.proof_of_indexing == Bytes32([0xaa; 32]));
    assert_eq!(poi.deployment.0, CID);
    let without_hash = poi_from_raw(&indexer(), &raw_poi(CID, "7", None, hash_text("aa"))).unwrap();
    assert!(without_hash.block == BlockPointer { number: 7, hash: None });
}

#[test]
fn proof_of_indexing_errors_in_order() {
    let convert = |raw: RawPoi| poi_from_raw(&indexer(), &raw).err();
    assert_eq!(
        convert(raw_poi("bad", "x", Some("y".to_string()), "z".to_string())),
        Some(ConversionError::InvalidDeployment)
    );
    assert_eq!(
        convert(raw_poi(CID, "x", Some("y".to_string()), "z".to_string())),
        Some(ConversionError::InvalidBlockNumber)
    );
    assert_eq!(
        convert(raw_poi(CID, "1", Some("y".to_string()), "z".to_string())),
        Some(ConversionError::InvalidBlockHash)
    );
    assert_eq!(
        convert(raw_poi(CID, "1", Some(hash_text("01")), "z".to_string())),
        Some(ConversionError::InvalidPoi)
    );
    assert_eq!(convert(raw_poi(CID, "1", None, "z".to_string())), Some(ConversionError::InvalidPoi));
}

#[test]
fn one_unusable_proof_of_indexing_fails_the_batch() {
    let good = || raw_poi(CID, "1", None, hash_text("aa"));
    assert_eq!(convert_pois(&indexer(), &vec![good(), good()]).unwrap().len(), 2);
    let raws = vec![good(), raw_poi(CID, "x", None, hash_text("aa")), raw_poi("bad", "1", None, hash_text("aa"))];
    assert_eq!(convert_pois(&indexer(), &raws).err(), Some(ConversionError::InvalidBlockNumber));
    assert!(convert_pois(&indexer(), &vec![]).unwrap().is_empty());
}

#[test]
fn requests_as_they_are_sent() {
    let raws = ProofsOfIndexing::variables(&vec![request(CID, 0), request("QmOther", 1234)]);
    let sent: Vec<(String, String)> =
        raws.into_iter().map(|r| (r.deployment, r.block_number)).collect();
    assert_eq!(
        sent,
        vec![(CID.to_string(), "0".to_string()), ("QmOther".to_string(), "1234".to_string())]
    );
    let variables = CachedEthereumCalls::variables("mainnet", &[0xde, 0xad]);
    assert_eq!((variables.network.as_str(), variables.block_hash.as_str()), ("mainnet", "dead"));
    let variables = BlockData::variables("goerli", &[]);
    assert_eq!((variables.network.as_str(), variables.block_hash.as_str()), ("goerli", ""));
    let variables = EntityChangesInBlock::variables(CID, 17).unwrap();
    assert_eq!((variables.subgraph_id.as_str(), variables.block_number), (CID, 17));
    assert!(EntityChangesInBlock::variables(CID, i64::MAX as u64).is_some());
    assert!(EntityChangesInBlock::variables(CID, i64::MAX as u64 + 1).is_none());
}

#[test]
fn queries_name_what_they_ask_for() {
    assert_eq!(Typename::query(), "query { __typename }");
    assert!(IndexingStatuses::query().contains("indexingStatuses"));
    assert!(ProofsOfIndexing::query().contains("publicProofsOfIndexing(requests: $requests)"));
    assert!(IndexerVersion::query().contains("version { version commit }"));
    assert!(SubgraphApiVersions::query().contains("apiVersions(subgraphId: $subgraphId)"));
    assert!(EntityChangesInBlock::query().contains("entityChangesInBlock"));
    assert!(CachedEthereumCalls::query().contains("cachedEthereumCalls"));
    assert!(BlockData::query().contains("blockData(network: $network, blockHash: $blockHash)"));
}

#[test]
fn exactly_one_proof_of_indexing() {
    assert_eq!(single_poi(vec![]).err(), Some(SinglePoiError::NoneReturned));
    assert!(single_poi(vec![poi(3)]).unwrap() == poi(3));
    assert_eq!(single_poi(vec![poi(3), poi(4)]).err(), Some(SinglePoiError::MultipleReturned));
}

#[test]
fn errors_of_a_response_win_over_its_data() {
    let errors = Some(vec!["first".to_string(), "second".to_string()]);
    match interpret_response(errors, Some(5)) {
        Err(ResponseError::Indexer(text)) => {
            assert_eq!(text, "Indexer returned errors: first,second")
        }
        _ => panic!("errors not reported"),
    }
    assert!(matches!(interpret_response(None, Some(5)), Ok(5)));
    assert!(matches!(interpret_response::<u8>(None, None), Err(ResponseError::NoData)));
    match interpret_response::<u8>(Some(vec![]), None) {
        Err(ResponseError::Indexer(text)) => assert_eq!(text, "Indexer returned errors: "),
        _ => panic!("errors not reported"),
    }
}

#[test]
fn unsupported_query_is_told_by_its_message() {
    let message = "Indexer returned errors: Cannot query field \"publicProofsOfIndexing\" on type \"Query\".";
    assert_eq!(classify_failure(message), ErrorKind::NotSupported);
    assert_eq!(classify_failure("Cannot query field \"other\" on type \"Query\""), ErrorKind::Protocol);
    assert_eq!(classify_failure(""), ErrorKind::Protocol);
}

#[test]
fn batches_of_one_by_default() {
    assert_eq!(DEFAULT_POI_BATCH_SIZE, 1);
    assert!(PoiCollection::new(vec![], 0).is_none());
    let requests = vec![request(CID, 1), request(CID, 2), request(CID, 3)];
    let mut collection = PoiCollection::new(requests, DEFAULT_POI_BATCH_SIZE).unwrap();
    let mut sent = vec![];
    while let Some(batch) = collection.next_batch() {
        assert_eq!(batch.len(), 1);
        let block = batch[0].block_number;
        sent.push(block);
        if block == 2 {
            collection.record(Err(ErrorKind::Transport));
        } else {
            collection.record(Ok(vec![poi(block)]));
        }
    }
    assert!(collection.is_done());
    assert_eq!(sent, vec![1, 2, 3]);
    let (pois, outcomes) = collection.finish();
    assert_eq!(outcomes, vec![true, false, true]);
    assert_eq!(pois.len(), 2);
    assert!(pois[0] == poi(1) && pois[1] == poi(3));
}

#[test]
fn batches_of_the_size_asked_for() {
    let requests: Vec<PoiRequest> = (1..=7).map(|b| request(CID, b)).collect();
    let mut collection = PoiCollection::new(requests, 3).unwrap();
    let mut sizes = vec![];
    while let Some(batch) = collection.next_batch() {
        sizes.push(batch.iter().map(|r| r.block_number).collect::<Vec<_>>());
        collection.record(Ok(batch.iter().map(|r| poi(r.block_number)).collect()));
    }
    assert_eq!(sizes, vec![vec![1, 2, 3], vec![4, 5, 6], vec![7]]);
    assert_eq!(collection.finish().0.len(), 7);
    let mut empty = PoiCollection::new(vec![], 3).unwrap();
    assert!(empty.next_batch().is_none());
    empty.record(Err(ErrorKind::Transport));
    assert!(empty.finish().1.is_empty());
}

#[test]
fn unsupported_indexer_is_not_asked_again() {
    let requests = vec![request(CID, 1), request(CID, 2), request(CID, 3)];
    let mut collection = PoiCollection::new(requests, 1).unwrap();
    collection.record(Ok(vec![poi(1)]));
    collection.record(Err(ErrorKind::NotSupported));
    assert!(collection.is_done());
    assert!(collection.next_batch().is_none());
    collection.record(Ok(vec![poi(3)]));
    let (pois, outcomes) = collection.finish();
    assert_eq!(pois.len(), 1);
    assert_eq!(outcomes, vec![true, false]);
}

#[test]
fn cached_calls() {
    let call = cached_call_from_raw("0x01", "0x", "0xabcd").unwrap();
    assert_eq!(call.id_hash, vec![1]);
    assert!(call.return_value.is_empty());
    assert_eq!(call.contract_address, vec![0xab, 0xcd]);
    assert_eq!(cached_call_from_raw("01", "0xz", "0x1").err(), Some(DecodeError::MissingPrefix));
    assert_eq!(
        cached_call_from_raw("0x01", "0xzz", "0x1").err(),
        Some(DecodeError::Hex(HexError::InvalidHexCharacter { c: 'z', index: 0 }))
    );
    assert_eq!(
        cached_call_from_raw("0x01", "0x", "0x1").err(),
        Some(DecodeError::Hex(HexError::OddLength))
    );
}

#[test]
fn entity_types_are_listed_once() {
    let updates = |types: &[&str]| {
        types
            .iter()
            .map(|t| EntityUpdates {
                entity_type: t.to_string(),
                entities: vec![serde_json::Value::Null, serde_json::Value::Bool(true)],
            })
            .collect::<Vec<_>>()
    };
    let deletions = |types: &[&str]| {
        types
            .iter()
            .map(|t| EntityDeletions { entity_type: t.to_string(), entities: vec!["id".to_string()] })
            .collect::<Vec<_>>()
    };
    let changes = entity_changes_from_raw(updates(&["Pair", "Token"]), deletions(&["Pair"])).unwrap();
    assert_eq!(changes.updates.len(), 2);
    assert_eq!(changes.updates[1].entities[1], serde_json::Value::Bool(true));
    assert_eq!(changes.deletions[0].entities, vec!["id".to_string()]);
    assert!(entity_changes_from_raw(vec![], vec![]).is_ok());
    assert_eq!(
        entity_changes_from_raw(updates(&["Pair", "Token", "Pair"]), vec![]).err(),
        Some(EntityChangesError::DuplicateEntityType)
    );
    assert_eq!(
        entity_changes_from_raw(updates(&["Pair"]), deletions(&["A", "A"])).err(),
        Some(EntityChangesError::DuplicateEntityType)
    );
}

#[test]
fn evidence_for_a_confirmed_run() {
    let digest = |fill: u8| Bytes32([fill; 32]);
    let block = BlockPointer { number: 4, hash: None };
    let mut run = BisectionRun::start(block, digest(1), digest(2)).unwrap();
    assert!(evidence_plan(&run).is_empty());
    run.advance(ProbeResult::Answered { hash: None, poi1: digest(1), poi2: digest(1) });
    run.advance(ProbeResult::Answered { hash: Some(digest(8)), poi1: digest(1), poi2: digest(2) });
    let plan = evidence_plan(&run);
    assert_eq!(plan.len(), 2);
    assert!(plan.iter().all(|r| matches!(r.kind, EvidenceKind::EntityChanges { block_number: 3 })));
    assert_eq!((plan[0].indexer, plan[1].indexer), (RunIndexer::First, RunIndexer::Second));
    let mut run = BisectionRun::start(block, digest(1), digest(2)).unwrap();
    run.advance(ProbeResult::Answered { hash: None, poi1: digest(1), poi2: digest(1) });
    run.advance(ProbeResult::Answered { hash: Some(digest(9)), poi1: digest(1), poi2: digest(1) });
    let plan = evidence_plan(&run);
    assert_eq!(plan.len(), 6);
    assert!(plan[..3].iter().all(|r| r.indexer == RunIndexer::First));
    assert!(plan[3..].iter().all(|r| r.indexer == RunIndexer::Second));
    assert!(matches!(plan[0].kind, EvidenceKind::BlockCache { block_hash } if block_hash == digest(9)));
    assert!(matches!(plan[1].kind, EvidenceKind::EthCalls { block_hash } if block_hash == digest(9)));
    assert!(matches!(plan[2].kind, EvidenceKind::EntityChanges { block_number: 4 }));
    let short = BisectionRun::start(BlockPointer { number: 1, hash: None }, digest(1), digest(2)).unwrap();
    assert_eq!(evidence_plan(&short).len(), 2);
}
