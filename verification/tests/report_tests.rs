use cross_checker::bisect::{BisectAction, BisectionRun, ProbeResult, StepOutcome};
use cross_checker::models::{CrossCheckReportRecord, DivergingBlock, PoiRecord};
use cross_checker::report::{
    bisection_pairs, divergence_investigation_report, queue_cross_check_report, rows_diverge,
    run_report, with_uuid, DivergenceInvestigationReport, DivergenceInvestigationRequest,
    DivergenceInvestigationStatus,
};
use cross_checker::rows::StoredPoi;
use cross_checker::store::PoiStore;
use cross_checker::writes::PoiLiveness;
use cross_checker::types;
use cross_checker::types::{
    BlockPointer, Bytes32, Indexer, POICrossCheckReport, ProofOfIndexing, SubgraphDeployment,
};

fn poi(address: u8, deployment: &str, block: u64, fill: u8) -> ProofOfIndexing {
    ProofOfIndexing {
        indexer: Indexer::new(vec![address; 20], None),
        deployment: SubgraphDeployment(deployment.to_string()),
        block: BlockPointer { number: block, hash: None },
        proof_of_indexing: Bytes32([fill; 32]),
    }
}

fn row(id: i32, address: u8, deployment: &str, block: u64, fill: u8) -> StoredPoi {
    StoredPoi { id, poi: poi(address, deployment, block, fill), created_at: 0, live: true }
}

fn confirmed_run() -> BisectionRun {
    let digest = |fill: u8| Bytes32([fill; 32]);
    let mut run = BisectionRun::start(BlockPointer { number: 4, hash: None }, digest(1), digest(2)).unwrap();
    run.advance(ProbeResult::Answered { hash: None, poi1: digest(1), poi2: digest(1) });
    run.advance(ProbeResult::Answered { hash: None, poi1: digest(3), poi2: digest(4) });
    run
}

#[test]
fn queued_requests_get_an_identifier() {
    let request = || DivergenceInvestigationRequest { pois: vec!["aa".repeat(32), "bb".repeat(32)] };
    let first = queue_cross_check_report(request());
    let second = queue_cross_check_report(request());
    assert_eq!(first.req.pois, request().pois);
    assert_ne!(first.uuid, second.uuid);
    assert_eq!(first.uuid >> 76 & 0xf, 4);
    assert_eq!(first.uuid >> 62 & 0x3, 2);
    let fixed = with_uuid(17, request());
    assert_eq!((fixed.uuid, fixed.req.pois.len()), (17, 2));
}

#[test]
fn pairs_that_call_for_a_bisection() {
    let rows = vec![
        row(1, 1, "QmA", 10, 0xaa),
        row(2, 2, "QmA", 10, 0xbb),
        row(3, 3, "QmA", 10, 0xaa),
        row(4, 4, "QmA", 11, 0xcc),
        row(5, 5, "QmB", 10, 0xdd),
        row(6, 6, "QmA", 10, 0xee),
    ];
    assert!(rows_diverge(&rows[0], &rows[1]));
    assert!(!rows_diverge(&rows[0], &rows[2]));
    assert!(!rows_diverge(&rows[0], &rows[3]));
    assert!(!rows_diverge(&rows[0], &rows[4]));
    assert_eq!(bisection_pairs(&rows), vec![(0, 1), (0, 5), (1, 2), (1, 5), (2, 5)]);
    assert!(bisection_pairs(&vec![]).is_empty());
    assert!(bisection_pairs(&rows[..1].to_vec()).is_empty());
}

#[test]
fn identical_pois_queue_no_report() {
    let mut store = PoiStore::new();
    store.write_pois(&vec![poi(1, "QmD", 10, 0xaa), poi(2, "QmD", 10, 0xaa)], PoiLiveness::Live, 1).unwrap();
    let rows = store.pois(vec!["QmD".to_string()], None, None);
    assert!(bisection_pairs(&rows).is_empty());
}

#[test]
fn cross_check_identical_pois() {
    // Two indexers with identical results, whatever the latest block: no
    // pair to bisect, and no run to start.
    for latest in 1..100u64 {
        let fill = (latest % 250) as u8;
        let rows = vec![row(1, 1, "QmD", latest, fill), row(2, 2, "QmD", latest, fill)];
        assert!(bisection_pairs(&rows).is_empty());
        let block = BlockPointer { number: latest, hash: None };
        assert!(BisectionRun::start(block, Bytes32([fill; 32]), Bytes32([fill; 32])).is_none());
    }
}

#[test]
fn report_on_a_confirmed_run() {
    let run = confirmed_run();
    let mut report = run_report(9, "aa".to_string(), "bb".to_string(), &run).unwrap();
    assert_eq!(report.uuid, 9);
    assert_eq!((report.poi1.as_str(), report.poi2.as_str()), ("aa", "bb"));
    assert_eq!(report.status, DivergenceInvestigationStatus::Complete);
    assert_eq!(report.bisection_steps.len(), 2);
    assert_eq!(report.diverging_block.unwrap().block.number, 3);
    assert!(report.error.is_none());
    report.note_evidence_failure("block cache unavailable");
    report.note_evidence_failure("eth calls unavailable");
    assert_eq!(report.error.as_deref(), Some("block cache unavailable; eth calls unavailable"));
    assert_eq!(report.status, DivergenceInvestigationStatus::Complete);
    assert_eq!(report.diverging_block.unwrap().block.number, 3);
}

#[test]
fn report_on_a_failed_run_and_none_on_a_running_one() {
    let digest = |fill: u8| Bytes32([fill; 32]);
    let mut run = BisectionRun::start(BlockPointer { number: 10, hash: None }, digest(1), digest(2)).unwrap();
    assert!(run_report(1, String::new(), String::new(), &run).is_none());
    run.advance(ProbeResult::Unindexed);
    let report = run_report(1, String::new(), String::new(), &run).unwrap();
    assert_eq!(report.status, DivergenceInvestigationStatus::Failed);
    assert_eq!(report.error.as_deref(), Some("unindexed"));
    assert!(report.diverging_block.is_none());
    let mut run = BisectionRun::start(BlockPointer { number: 3, hash: None }, digest(1), digest(2)).unwrap();
    run.advance(ProbeResult::Unavailable);
    let report = run_report(1, String::new(), String::new(), &run).unwrap();
    assert_eq!(report.error.as_deref(), Some("gap"));
    assert_eq!(report.bisection_steps.len(), 1);
}

#[test]
fn ended_investigation_stays_as_it_is() {
    let run = confirmed_run();
    let mut report = DivergenceInvestigationReport::new(5);
    assert_eq!(report.status, DivergenceInvestigationStatus::InProgress);
    assert!(report.append_run(run_report(5, "a".into(), "b".into(), &run).unwrap()));
    report.complete();
    assert_eq!(report.status, DivergenceInvestigationStatus::Complete);
    assert!(!report.append_run(run_report(5, "c".into(), "d".into(), &run).unwrap()));
    report.fail("too late".to_string());
    assert_eq!(report.status, DivergenceInvestigationStatus::Complete);
    assert!(report.error.is_none());
    assert_eq!(report.bisection_runs.len(), 1);
    let mut failed = DivergenceInvestigationReport::new(6);
    failed.fail("store unavailable".to_string());
    failed.complete();
    assert_eq!(failed.status, DivergenceInvestigationStatus::Failed);
    assert_eq!(failed.error.as_deref(), Some("store unavailable"));
}

#[test]
fn report_shown_for_an_identifier() {
    let mut stored = DivergenceInvestigationReport::new(5);
    stored.complete();
    let shown = divergence_investigation_report(5, Some(stored), false).unwrap();
    assert_eq!(shown.status, DivergenceInvestigationStatus::Complete);
    let pending = divergence_investigation_report(6, None, true).unwrap();
    assert_eq!((pending.uuid, pending.status), (6, DivergenceInvestigationStatus::InProgress));
    assert!(pending.bisection_runs.is_empty() && pending.error.is_none());
    assert!(divergence_investigation_report(7, None, false).is_none());
}

#[test]
fn diverging_block_in_text() {
    let block = types::DivergingBlock {
        block: BlockPointer { number: 7, hash: Some(Bytes32([1; 32])) },
        proof_of_indexing1: Bytes32([0xaa; 32]),
        proof_of_indexing2: Bytes32([0xbb; 32]),
    };
    let text = DivergingBlock::from_diverging_block(block).unwrap();
    assert_eq!(text.block_number, 7);
    assert_eq!(text.block_hash, Some("0x".to_string() + &"01".repeat(32)));
    assert_eq!(text.proof_of_indexing1, "0x".to_string() + &"aa".repeat(32));
    assert_eq!(text.proof_of_indexing2, "0x".to_string() + &"bb".repeat(32));
    let too_high = types::DivergingBlock { block: BlockPointer { number: u64::MAX, hash: None }, ..block };
    assert!(DivergingBlock::from_diverging_block(too_high).is_none());
    let at_limit = types::DivergingBlock { block: BlockPointer { number: i64::MAX as u64, hash: None }, ..block };
    let text = DivergingBlock::from_diverging_block(at_limit).unwrap();
    assert_eq!((text.block_number, text.block_hash), (i64::MAX, None));
}

#[test]
fn flat_records() {
    let record = PoiRecord::from_poi(&poi(0xab, "QmD", 10, 0xcd), 99).unwrap();
    assert_eq!(record.timestamp, 99);
    assert_eq!(record.indexer, "ab".repeat(20));
    assert_eq!(record.deployment, "QmD");
    assert_eq!(record.block_number, 10);
    assert_eq!(record.block_hash, None);
    assert_eq!(record.proof_of_indexing, "0x".to_string() + &"cd".repeat(32));
    assert!(PoiRecord::from_poi(&poi(1, "QmD", u64::MAX, 1), 99).is_none());
    let report = POICrossCheckReport {
        poi1: poi(1, "QmD", 10, 0xaa),
        poi2: poi(2, "QmD", 10, 0xbb),
        diverging_block: None,
    };
    let record = CrossCheckReportRecord::from_report(&report, 5).unwrap();
    assert_eq!((record.indexer1, record.indexer2), ("01".repeat(20), "02".repeat(20)));
    assert_eq!((record.deployment.as_str(), record.block_number, record.timestamp), ("QmD", 10, 5));
    assert_eq!(record.proof_of_indexing1, "0x".to_string() + &"aa".repeat(32));
    assert_eq!(record.proof_of_indexing2, "0x".to_string() + &"bb".repeat(32));
}

#[test]
fn writes_are_stamped_with_the_time_of_the_call() {
    let mut store = PoiStore::new();
    let (now, written) = store.write_pois_now(&vec![poi(1, "QmD", 10, 0xaa)], PoiLiveness::Live);
    assert_eq!(written, Ok(()));
    assert!(now > 1_600_000_000);
    let rows = store.pois(vec!["QmD".to_string()], None, None);
    assert_eq!(rows[0].created_at, now);
}

fn named_poi(name: &str, block: u64, fill: u8) -> ProofOfIndexing {
    ProofOfIndexing {
        indexer: Indexer::new(vec![], Some(name.to_string())),
        deployment: SubgraphDeployment("QmD".to_string()),
        block: BlockPointer { number: block, hash: Some(Bytes32([7; 32])) },
        proof_of_indexing: Bytes32([fill; 32]),
    }
}

#[test]
fn indexers_in_flat_records_go_by_their_identifier() {
    let by_address = Indexer::new(vec![0xab; 20], Some("first".to_string()));
    assert_eq!(by_address.id(), "0x".to_string() + &"ab".repeat(20));
    assert_eq!(by_address.record_text(), "ab".repeat(20));
    let by_name = Indexer::new(vec![], Some("local".to_string()));
    assert_eq!(by_name.id(), "local");
    assert_eq!(by_name.record_text(), "local");
    assert_eq!(Indexer::new(vec![], Some("0x0xlocal".to_string())).record_text(), "local");
    assert_eq!(Indexer::new(vec![], None).record_text(), "");
}

#[test]
fn flat_records_of_indexers_without_an_address() {
    let record = PoiRecord::from_poi(&named_poi("local", 10, 0xcd), 3).unwrap();
    assert_eq!(record.indexer, "local");
    assert_eq!(record.block_hash, Some("0x".to_string() + &"07".repeat(32)));
    let report = POICrossCheckReport {
        poi1: named_poi("left", 10, 0xaa),
        poi2: poi(2, "QmD", 10, 0xbb),
        diverging_block: None,
    };
    let record = CrossCheckReportRecord::from_report(&report, 5).unwrap();
    assert_eq!(record.indexer1, "left");
    assert_eq!(record.indexer2, "02".repeat(20));
    assert!(CrossCheckReportRecord::from_report(
        &POICrossCheckReport {
            poi1: named_poi("left", u64::MAX, 0xaa),
            poi2: named_poi("right", u64::MAX, 0xbb),
            diverging_block: None,
        },
        5
    )
    .is_none());
}

#[test]
fn investigation_around_a_silent_block_is_reported_with_its_trace() {
    let agreed = |block: u64| Bytes32([block as u8; 32]);
    let other = |block: u64| if block >= 7 { Bytes32([0xf0 | block as u8; 32]) } else { agreed(block) };
    let start = BlockPointer { number: 10, hash: None };
    let mut run = BisectionRun::start(start, agreed(10), other(10)).unwrap();
    let mut action = run.next_action();
    let mut probed = vec![];
    while let BisectAction::Probe(block) = action {
        probed.push(block);
        action = run.advance(if block == 5 {
            ProbeResult::Unavailable
        } else {
            ProbeResult::Answered { hash: None, poi1: agreed(block), poi2: other(block) }
        });
    }
    assert_eq!(probed, vec![5, 4, 7, 5, 6]);
    let mut report = DivergenceInvestigationReport::new(21);
    assert!(report.append_run(run_report(21, "aa".into(), "bb".into(), &run).unwrap()));
    report.complete();
    let shown = divergence_investigation_report(21, Some(report), true).unwrap();
    assert_eq!(shown.uuid, 21);
    assert_eq!(shown.status, DivergenceInvestigationStatus::Complete);
    assert_eq!(shown.bisection_runs.len(), 1);
    let run_shown = &shown.bisection_runs[0];
    let found = run_shown.diverging_block.unwrap();
    assert_eq!(found.block.number, 7);
    assert!(found.proof_of_indexing1 == agreed(7) && found.proof_of_indexing2 == other(7));
    let incomplete: Vec<u64> = run_shown
        .bisection_steps
        .iter()
        .filter(|s| s.outcome == StepOutcome::Incomplete)
        .map(|s| s.block_number)
        .collect();
    assert_eq!(incomplete, vec![5, 5]);
    assert!(run_shown.error.is_none());
}
