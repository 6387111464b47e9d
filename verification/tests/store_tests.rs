use cross_checker::error::ErrorKind;
use cross_checker::ordering::{distinct_keys_in_order, lex_order, Rank};
use cross_checker::models::PoiDivergenceBisectReport;
use cross_checker::rows::{
    answer_query, ids_in_order, row_precedes, select_rows, BlockRange, PoiQuery, StoredPoi,
};
use cross_checker::report_table::{normalize_pair, refile_outcome};
use cross_checker::store::PoiStore;
use cross_checker::writes::{plan_write, same_coordinates, same_pair, PoiLiveness, StoreError};
use cross_checker::types::{BlockPointer, Bytes32, Indexer, ProofOfIndexing, SubgraphDeployment};

fn poi(address: u8, deployment: &str, block: u64, fill: u8) -> ProofOfIndexing {
    ProofOfIndexing {
        indexer: Indexer::new(vec![address; 20], None),
        deployment: SubgraphDeployment(deployment.to_string()),
        block: BlockPointer { number: block, hash: Some(Bytes32([block as u8; 32])) },
        proof_of_indexing: Bytes32([fill; 32]),
    }
}

fn live_rows(store: &PoiStore, address: u8, deployment: &str) -> Vec<StoredPoi> {
    store.live_pois(Some(vec![address; 20]), Some(vec![deployment.to_string()]), None, None)
}

fn summary(rows: &[StoredPoi]) -> Vec<(i32, u8, String, u64, bool)> {
    rows.iter()
        .map(|r| {
            (r.id, r.poi.indexer.address[0], r.poi.deployment.0.clone(), r.poi.block.number, r.live)
        })
        .collect()
}

#[test]
fn byte_strings_in_dictionary_order() {
    assert_eq!(lex_order(b"", b""), Rank::Same);
    assert_eq!(lex_order(b"", b"a"), Rank::Before);
    assert_eq!(lex_order(b"a", b""), Rank::After);
    assert_eq!(lex_order(b"ab", b"abc"), Rank::Before);
    assert_eq!(lex_order(b"abd", b"abc"), Rank::After);
    assert_eq!(lex_order(b"abc", b"abc"), Rank::Same);
    assert_eq!(lex_order(&[1, 255], &[2, 0]), Rank::Before);
}

#[test]
fn identical_pois_of_two_indexers_are_both_live() {
    let mut store = PoiStore::new();
    let batch = vec![poi(1, "QmD", 10, 0xaa), poi(2, "QmD", 10, 0xaa)];
    assert_eq!(store.write_pois(&batch, PoiLiveness::Live, 100), Ok(()));
    assert_eq!(store.len(), 2);
    let rows = store.pois(vec!["QmD".to_string()], None, None);
    assert_eq!(
        summary(&rows),
        vec![(1, 1, "QmD".to_string(), 10, true), (2, 2, "QmD".to_string(), 10, true)]
    );
    assert!(rows.iter().all(|r| r.created_at == 100));
    assert!(store.reports().is_empty());
}

#[test]
fn live_invariant_under_re_poll() {
    let mut store = PoiStore::new();
    store.write_pois(&vec![poi(1, "QmD", 10, 0xaa)], PoiLiveness::Live, 1).unwrap();
    store.write_pois(&vec![poi(1, "QmD", 11, 0xab)], PoiLiveness::Live, 2).unwrap();
    let live = live_rows(&store, 1, "QmD");
    assert_eq!(summary(&live), vec![(2, 1, "QmD".to_string(), 11, true)]);
    let all = store.pois(vec!["QmD".to_string()], None, None);
    assert_eq!(
        summary(&all),
        vec![(2, 1, "QmD".to_string(), 11, true), (1, 1, "QmD".to_string(), 10, false)]
    );
}

#[test]
fn stored_coordinates_are_written_once() {
    let mut store = PoiStore::new();
    store.write_pois(&vec![poi(1, "QmD", 10, 0xaa)], PoiLiveness::NotLive, 1).unwrap();
    let again = vec![poi(1, "QmD", 10, 0xbb), poi(1, "QmD", 10, 0xcc), poi(2, "QmD", 10, 0xdd), poi(2, "QmD", 10, 0xee)];
    store.write_pois(&again, PoiLiveness::NotLive, 2).unwrap();
    let rows = store.pois(vec!["QmD".to_string()], None, None);
    assert_eq!(rows.len(), 2);
    assert!(rows[0].poi.proof_of_indexing == Bytes32([0xaa; 32]) && rows[0].created_at == 1);
    assert!(rows[1].poi.proof_of_indexing == Bytes32([0xdd; 32]) && rows[1].created_at == 2);
    assert!(rows.iter().all(|r| !r.live));
}

#[test]
fn live_write_of_nothing_new_changes_nothing() {
    let mut store = PoiStore::new();
    store.write_pois(&vec![poi(1, "QmD", 10, 0xaa), poi(2, "QmD", 10, 0xaa)], PoiLiveness::Live, 1).unwrap();
    store.write_pois(&vec![poi(1, "QmD", 10, 0xaa)], PoiLiveness::Live, 2).unwrap();
    assert_eq!(summary(&live_rows(&store, 1, "QmD")), vec![(1, 1, "QmD".to_string(), 10, true)]);
    assert_eq!(live_rows(&store, 2, "QmD").len(), 1);
    assert_eq!(store.len(), 2);
}

#[test]
fn live_write_of_a_block_stored_as_not_live_leaves_it_so() {
    let mut store = PoiStore::new();
    store.write_pois(&vec![poi(1, "QmD", 7, 0xaa)], PoiLiveness::NotLive, 1).unwrap();
    store.write_pois(&vec![poi(1, "QmD", 7, 0xaa)], PoiLiveness::Live, 2).unwrap();
    assert!(live_rows(&store, 1, "QmD").is_empty());
    store.write_pois(&vec![poi(1, "QmD", 8, 0xab)], PoiLiveness::Live, 3).unwrap();
    assert_eq!(summary(&live_rows(&store, 1, "QmD")), vec![(2, 1, "QmD".to_string(), 8, true)]);
}

#[test]
fn rounds_that_poll_the_same_blocks_again() {
    let mut store = PoiStore::new();
    for round in 0..2 {
        store.write_pois(&vec![poi(1, "QmD", 10, 0xaa)], PoiLiveness::Live, round).unwrap();
        store.write_pois(&vec![poi(1, "QmD", 11, 0xab)], PoiLiveness::Live, round).unwrap();
    }
    assert_eq!(summary(&live_rows(&store, 1, "QmD")), vec![(2, 1, "QmD".to_string(), 11, true)]);
    assert_eq!(store.len(), 2);
}

#[test]
fn not_live_write_leaves_live_rows_alone() {
    let mut store = PoiStore::new();
    store.write_pois(&vec![poi(1, "QmD", 10, 0xaa)], PoiLiveness::Live, 1).unwrap();
    store.write_pois(&vec![poi(1, "QmD", 5, 0xab)], PoiLiveness::NotLive, 2).unwrap();
    assert_eq!(summary(&live_rows(&store, 1, "QmD")), vec![(1, 1, "QmD".to_string(), 10, true)]);
}

#[test]
fn two_new_live_rows_for_one_pair_are_refused() {
    let mut store = PoiStore::new();
    store.write_pois(&vec![poi(1, "QmD", 10, 0xaa)], PoiLiveness::Live, 1).unwrap();
    let batch = vec![poi(2, "QmD", 11, 1), poi(1, "QmD", 11, 2), poi(1, "QmD", 12, 3)];
    assert_eq!(store.write_pois(&batch, PoiLiveness::Live, 2), Err(StoreError::Constraint));
    assert_eq!(store.len(), 1);
    assert_eq!(summary(&live_rows(&store, 1, "QmD")), vec![(1, 1, "QmD".to_string(), 10, true)]);
    assert_eq!(store.write_pois(&batch, PoiLiveness::NotLive, 3), Ok(()));
    assert_eq!(store.len(), 4);
    assert_eq!(StoreError::Constraint.kind(), ErrorKind::Invariant);
    assert_eq!(StoreError::Exhausted.kind(), ErrorKind::Storage);
}

#[test]
fn poi_db_roundtrip() {
    let mut store = PoiStore::new();
    let mut batch = vec![];
    for i in 0..100u8 {
        batch.push(poi(i % 10, &format!("Qm{}", i % 4), 100 + (i / 10) as u64, i));
    }
    store.write_pois(&batch, PoiLiveness::NotLive, 1).unwrap();
    let deployments: Vec<String> = batch.iter().map(|p| p.deployment.0.clone()).collect();
    let read = store.pois(deployments, None, None);
    assert_eq!(read.len(), 100);
    for p in &batch {
        assert!(read.iter().any(|r| r.poi == *p));
    }
    for r in &read {
        assert!(batch.iter().any(|p| r.poi == *p));
    }
}

#[test]
fn query_orders_by_block_then_deployment_then_indexer() {
    let mut store = PoiStore::new();
    let batch = vec![
        poi(2, "QmB", 10, 1),
        poi(1, "QmB", 10, 2),
        poi(1, "QmA", 10, 3),
        poi(3, "QmA", 12, 4),
        poi(1, "QmA", 11, 5),
        poi(2, "QmA", 10, 6),
    ];
    store.write_pois(&batch, PoiLiveness::NotLive, 1).unwrap();
    let query = PoiQuery { indexer: None, deployments: None, block_range: None, limit: None, live_only: false };
    let order: Vec<u8> = store.query(&query).iter().map(|r| r.poi.proof_of_indexing.0[0]).collect();
    assert_eq!(order, vec![4, 5, 3, 6, 2, 1]);
}

#[test]
fn query_filters_and_limits() {
    let mut store = PoiStore::new();
    let mut batch = vec![];
    for block in 1..=20u64 {
        batch.push(poi(1, "QmA", block, block as u8));
        batch.push(poi(2, "QmB", block, 100 + block as u8));
    }
    store.write_pois(&batch, PoiLiveness::NotLive, 1).unwrap();
    let range = Some(BlockRange { lo: 5, hi: 8 });
    let in_range = store.pois(vec!["QmA".to_string()], range, None);
    let blocks: Vec<u64> = in_range.iter().map(|r| r.poi.block.number).collect();
    assert_eq!(blocks, vec![7, 6, 5]);
    let limited = store.pois(vec!["QmA".to_string(), "QmB".to_string()], None, Some(3));
    let picked: Vec<(u64, String)> =
        limited.iter().map(|r| (r.poi.block.number, r.poi.deployment.0.clone())).collect();
    assert_eq!(
        picked,
        vec![(20, "QmA".to_string()), (20, "QmB".to_string()), (19, "QmA".to_string())]
    );
    assert!(store.pois(vec![], None, None).is_empty());
    assert!(store.pois(vec!["QmA".to_string()], None, Some(0)).is_empty());
    let by_indexer = PoiQuery {
        indexer: Some(vec![2; 20]),
        deployments: None,
        block_range: Some(BlockRange { lo: 19, hi: 30 }),
        limit: None,
        live_only: false,
    };
    assert_eq!(store.query(&by_indexer).len(), 2);
}

#[test]
fn query_never_returns_more_than_the_cap() {
    let mut store = PoiStore::new();
    let mut batch = vec![];
    for block in 1..=300u64 {
        batch.push(ProofOfIndexing {
            indexer: Indexer::new(vec![1; 20], None),
            deployment: SubgraphDeployment("QmA".to_string()),
            block: BlockPointer { number: block, hash: None },
            proof_of_indexing: Bytes32([1; 32]),
        });
    }
    store.write_pois(&batch, PoiLiveness::NotLive, 1).unwrap();
    let all = store.pois(vec!["QmA".to_string()], None, None);
    assert_eq!(all.len(), 250);
    assert_eq!(all[0].poi.block.number, 300);
    assert_eq!(all[249].poi.block.number, 51);
    assert_eq!(store.pois(vec!["QmA".to_string()], None, Some(1000)).len(), 250);
    assert_eq!(store.pois(vec!["QmA".to_string()], None, Some(249)).len(), 249);
}

#[test]
fn rows_are_ordered_by_identifier_last() {
    let row = |id: i32, block: u64| StoredPoi { id, poi: poi(1, "QmA", block, 1), created_at: 0, live: false };
    assert!(row_precedes(&row(1, 10), &row(2, 10)));
    assert!(!row_precedes(&row(2, 10), &row(1, 10)));
    assert!(!row_precedes(&row(1, 10), &row(1, 10)));
    assert!(row_precedes(&row(2, 11), &row(1, 10)));
    let rows = vec![row(1, 10), row(2, 11)];
    let query = PoiQuery { indexer: None, deployments: None, block_range: None, limit: Some(1), live_only: false };
    assert_eq!(select_rows(&rows, &query)[0].id, 2);
}

#[test]
fn finds_a_proof_of_indexing_by_its_digest() {
    let mut store = PoiStore::new();
    store.write_pois(&vec![poi(1, "QmD", 10, 0xaa), poi(2, "QmD", 10, 0xaa), poi(3, "QmD", 10, 0xbb)], PoiLiveness::Live, 1).unwrap();
    let found = store.poi(&"aa".repeat(32)).unwrap().unwrap();
    assert_eq!(found.id, 1);
    let found = store.poi(&("0x".to_string() + &"bb".repeat(32))).unwrap().unwrap();
    assert_eq!(found.id, 3);
    assert!(store.poi(&"cc".repeat(32)).unwrap().is_none());
    assert!(matches!(store.poi("0xzz"), Err(StoreError::InvalidDigest)));
}

#[test]
fn pair_normalization() {
    let mut store = PoiStore::new();
    store.write_pois(&vec![poi(1, "QmD", 10, 0xaa), poi(2, "QmD", 10, 0xbb)], PoiLiveness::Live, 1).unwrap();
    let p = "aa".repeat(32);
    let q = "bb".repeat(32);
    let first = store.write_divergence_bisect_report(&p, &q, 7, 50).unwrap();
    let second = store.write_divergence_bisect_report(&q, &p, 7, 60).unwrap();
    assert_eq!(first, second);
    assert_eq!(store.reports().len(), 1);
    let report = store.reports()[0];
    assert_eq!((report.id, report.poi1_id, report.poi2_id), (1, 1, 2));
    assert_eq!((report.divergence_block_id, report.created_at), (7, 50));
}

#[test]
fn reports_that_are_refused() {
    let mut store = PoiStore::new();
    store.write_pois(&vec![poi(1, "QmD", 10, 0xaa), poi(2, "QmD", 10, 0xbb), poi(3, "QmD", 10, 0xcc)], PoiLiveness::Live, 1).unwrap();
    let (p, q, r) = ("aa".repeat(32), "bb".repeat(32), "cc".repeat(32));
    assert_eq!(store.write_divergence_bisect_report(&q, &p, 7, 1), Ok(1));
    assert_eq!(store.write_divergence_bisect_report(&p, &q, 8, 1), Err(StoreError::Constraint));
    assert_eq!(store.write_divergence_bisect_report(&p, &p, 7, 1), Err(StoreError::Constraint));
    assert_eq!(store.write_divergence_bisect_report("zz", &p, 7, 1), Err(StoreError::InvalidDigest));
    assert_eq!(store.write_divergence_bisect_report(&p, "zz", 7, 1), Err(StoreError::InvalidDigest));
    assert_eq!(
        store.write_divergence_bisect_report(&"dd".repeat(32), &p, 7, 1),
        Err(StoreError::UnknownPoi)
    );
    assert_eq!(
        store.write_divergence_bisect_report(&p, &"dd".repeat(32), 7, 1),
        Err(StoreError::UnknownPoi)
    );
    assert_eq!(store.reports().len(), 1);
    assert_eq!(store.write_divergence_bisect_report(&r, &p, 9, 2), Ok(2));
    assert_eq!(store.reports().len(), 2);
    assert_eq!((store.reports()[1].poi1_id, store.reports()[1].poi2_id), (1, 3));
}

#[test]
fn rows_read_out_of_order_are_not_answered() {
    let row = |id: i32, block: u64| StoredPoi { id, poi: poi(1, "QmA", block, 1), created_at: 0, live: false };
    let query = PoiQuery { indexer: None, deployments: None, block_range: None, limit: None, live_only: false };
    assert!(ids_in_order(&vec![]));
    assert!(ids_in_order(&vec![row(5, 1)]));
    assert!(ids_in_order(&vec![row(1, 3), row(2, 2), row(9, 1)]));
    assert!(!ids_in_order(&vec![row(1, 3), row(1, 2)]));
    assert!(!ids_in_order(&vec![row(1, 3), row(3, 2), row(2, 1)]));
    let answer = answer_query(&vec![row(1, 1), row(2, 3), row(3, 2)], &query).unwrap();
    assert_eq!(answer.iter().map(|r| r.id).collect::<Vec<_>>(), vec![2, 3, 1]);
    assert!(answer_query(&vec![row(2, 1), row(1, 3)], &query).is_none());
}

#[test]
fn coordinates_and_pairs() {
    assert!(same_coordinates(&poi(1, "QmA", 10, 1), &poi(1, "QmA", 10, 2)));
    assert!(!same_coordinates(&poi(1, "QmA", 10, 1), &poi(1, "QmA", 11, 1)));
    assert!(!same_coordinates(&poi(1, "QmA", 10, 1), &poi(2, "QmA", 10, 1)));
    assert!(!same_coordinates(&poi(1, "QmA", 10, 1), &poi(1, "QmB", 10, 1)));
    assert!(same_pair(&poi(1, "QmA", 10, 1), &poi(1, "QmA", 11, 2)));
    assert!(!same_pair(&poi(1, "QmA", 10, 1), &poi(2, "QmA", 10, 1)));
    assert_eq!(normalize_pair(5, 3), (3, 5));
    assert_eq!(normalize_pair(3, 5), (3, 5));
    assert_eq!(normalize_pair(4, 4), (4, 4));
}

#[test]
fn plan_of_a_write() {
    let row = |id: i32, address: u8, deployment: &str, block: u64, live: bool| StoredPoi {
        id,
        poi: poi(address, deployment, block, 1),
        created_at: 0,
        live,
    };
    let rows = vec![
        row(1, 1, "QmA", 9, false),
        row(2, 1, "QmA", 10, true),
        row(3, 2, "QmA", 10, true),
        row(4, 1, "QmB", 10, true),
    ];
    let batch = vec![poi(1, "QmA", 10, 7), poi(1, "QmA", 11, 7), poi(3, "QmA", 11, 7), poi(3, "QmA", 11, 8)];
    let plan = plan_write(&rows, &batch, PoiLiveness::Live).unwrap();
    assert!(plan.make_live);
    assert_eq!(plan.clear, vec![2]);
    let added: Vec<(u8, u64)> =
        plan.insert.iter().map(|p| (p.indexer.address[0], p.block.number)).collect();
    assert_eq!(added, vec![(1, 11), (3, 11)]);
    let plan = plan_write(&rows, &batch, PoiLiveness::NotLive).unwrap();
    assert!(!plan.make_live && plan.clear.is_empty());
    assert_eq!(plan.insert.len(), 2);
    let twice = vec![poi(1, "QmA", 11, 7), poi(1, "QmA", 12, 7)];
    assert_eq!(plan_write(&rows, &twice, PoiLiveness::Live).err(), Some(StoreError::Constraint));
    assert!(plan_write(&rows, &twice, PoiLiveness::NotLive).is_ok());
}

#[test]
fn plan_carried_out_is_the_write() {
    let mut store = PoiStore::new();
    store.write_pois(&vec![poi(1, "QmA", 10, 1), poi(2, "QmA", 10, 1), poi(1, "QmB", 10, 1)], PoiLiveness::Live, 1).unwrap();
    let query = PoiQuery { indexer: None, deployments: None, block_range: None, limit: None, live_only: false };
    let mut rows = store.query(&query);
    rows.sort_by_key(|r| r.id);
    let batch = vec![poi(1, "QmA", 11, 2), poi(3, "QmA", 11, 2), poi(2, "QmA", 10, 9)];
    let plan = plan_write(&rows, &batch, PoiLiveness::Live).unwrap();
    store.write_pois(&batch, PoiLiveness::Live, 2).unwrap();
    let mut after = store.query(&query);
    after.sort_by_key(|r| r.id);
    assert_eq!(after.len(), rows.len() + plan.insert.len());
    for (before, now) in rows.iter().zip(after.iter()) {
        assert_eq!(now.id, before.id);
        assert_eq!(now.live, before.live && !plan.clear.contains(&before.id));
    }
    for (added, now) in plan.insert.iter().zip(after[rows.len()..].iter()) {
        assert!(now.poi == *added && now.live);
    }
}

#[test]
fn filing_a_report_again() {
    let existing = PoiDivergenceBisectReport { id: 4, poi1_id: 1, poi2_id: 2, divergence_block_id: 7, created_at: 0 };
    assert_eq!(refile_outcome(&existing, 7), Ok(4));
    assert_eq!(refile_outcome(&existing, 8), Err(StoreError::Constraint));
}

#[test]
fn distinct_keys_by_first_position_in_order() {
    let keys: Vec<Vec<u8>> =
        ["b", "a", "b", "", "ab", "a", "c"].iter().map(|k| k.as_bytes().to_vec()).collect();
    assert_eq!(distinct_keys_in_order(&keys), vec![3, 1, 4, 0, 6]);
    assert!(distinct_keys_in_order(&vec![]).is_empty());
}

#[test]
fn store_lists_its_deployments_and_indexers() {
    let mut store = PoiStore::new();
    assert!(store.sg_deployments().is_empty() && store.indexers().is_empty());
    let batch = vec![
        poi(3, "QmB", 10, 1),
        poi(1, "QmA", 10, 1),
        poi(3, "QmA", 10, 1),
        poi(2, "QmC", 10, 1),
        poi(1, "QmB", 11, 1),
    ];
    store.write_pois(&batch, PoiLiveness::Live, 1).unwrap();
    assert_eq!(store.sg_deployments(), vec!["QmA".to_string(), "QmB".to_string(), "QmC".to_string()]);
    let addresses: Vec<u8> = store.indexers().iter().map(|i| i.address[0]).collect();
    assert_eq!(addresses, vec![1, 2, 3]);
}

fn chain_of(blocks: u64) -> Vec<ProofOfIndexing> {
    (1..=blocks)
        .map(|block| ProofOfIndexing {
            indexer: Indexer::new(vec![1; 20], None),
            deployment: SubgraphDeployment("QmA".to_string()),
            block: BlockPointer { number: block, hash: None },
            proof_of_indexing: Bytes32([block as u8; 32]),
        })
        .collect()
}

#[test]
fn as_many_rows_as_the_cap_are_all_read_back() {
    for blocks in [249u64, 250] {
        let mut store = PoiStore::new();
        let batch = chain_of(blocks);
        store.write_pois(&batch, PoiLiveness::NotLive, 1).unwrap();
        let read = store.pois(vec!["QmA".to_string()], None, None);
        assert_eq!(read.len() as u64, blocks);
        for p in &batch {
            assert_eq!(read.iter().filter(|r| r.poi == *p).count(), 1);
        }
        for r in &read {
            assert!(batch.iter().any(|p| r.poi == *p));
        }
    }
    let mut store = PoiStore::new();
    store.write_pois(&chain_of(251), PoiLiveness::NotLive, 1).unwrap();
    let read = store.pois(vec!["QmA".to_string()], None, None);
    assert_eq!(read.len(), 250);
    assert!(read.iter().all(|r| r.poi.block.number >= 2));
}

#[test]
fn live_query_after_live_writes() {
    let mut store = PoiStore::new();
    let mut first = vec![];
    let mut second = vec![];
    for address in 1..=3u8 {
        for deployment in ["QmA", "QmB"] {
            first.push(poi(address, deployment, 10, address));
            second.push(poi(address, deployment, 11, address + 10));
        }
    }
    store.write_pois(&first, PoiLiveness::Live, 1).unwrap();
    store.write_pois(&second, PoiLiveness::Live, 2).unwrap();
    let deployments = vec!["QmA".to_string(), "QmB".to_string()];
    let live = store.live_pois(None, Some(deployments.clone()), None, None);
    assert_eq!(live.len(), 6);
    assert!(live.iter().all(|r| r.live));
    for (i, a) in live.iter().enumerate() {
        for b in &live[i + 1..] {
            assert!(!same_pair(&a.poi, &b.poi));
        }
        assert!(second.iter().any(|p| a.poi == *p));
    }
    let all = store.pois(deployments, None, None);
    assert_eq!(all.len(), 12);
    assert_eq!(all.iter().filter(|r| r.live).count(), 6);
    for r in &live {
        assert!(all.iter().any(|other| other.id == r.id && other.poi == r.poi));
    }
}
