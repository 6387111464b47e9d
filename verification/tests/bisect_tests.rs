use cross_checker::bisect::{
    BisectAction, BisectionFailure, BisectionRun, Phase, ProbeResult, StepOutcome,
};
use cross_checker::types::{BlockPointer, Bytes32};

fn digest(fill: u8, block: u64) -> Bytes32 {
    let mut bytes = [fill; 32];
    bytes[24..].copy_from_slice(&block.to_be_bytes());
    Bytes32(bytes)
}

/// Runs a bisection between an indexer that is right and one that goes
/// wrong at `diverges_at`, and that cannot answer for the blocks in `mute`.
fn bisect(n: u64, diverges_at: u64, mute: &[u64]) -> (BisectionRun, BisectAction, Vec<u64>) {
    let poi1 = |block: u64| digest(0xaa, block);
    let poi2 = |block: u64| if block >= diverges_at { digest(0xbb, block) } else { digest(0xaa, block) };
    let block = BlockPointer { number: n, hash: None };
    let mut run = BisectionRun::start(block, poi1(n), poi2(n)).unwrap();
    let mut probed = vec![];
    let mut action = run.next_action();
    while let BisectAction::Probe(block) = action {
        probed.push(block);
        assert!(probed.len() <= 2 * n as usize + 1);
        let result = if mute.contains(&block) {
            ProbeResult::Unavailable
        } else {
            ProbeResult::Answered { hash: None, poi1: poi1(block), poi2: poi2(block) }
        };
        action = run.advance(result);
    }
    (run, action, probed)
}

#[test]
fn no_run_without_a_divergence() {
    let block = BlockPointer { number: 10, hash: None };
    assert!(BisectionRun::start(block, digest(1, 10), digest(1, 10)).is_none());
    assert!(BisectionRun::start(block, digest(1, 10), digest(2, 10)).is_some());
}

#[test]
fn starts_between_block_one_and_the_divergence() {
    let block = BlockPointer { number: 10, hash: None };
    let run = BisectionRun::start(block, digest(1, 10), digest(2, 10)).unwrap();
    assert_eq!(run.bounds(), (1, 10));
    assert_eq!(run.phase(), Phase::Probing);
    assert!(matches!(run.next_action(), BisectAction::Probe(5)));
    assert!(run.steps().is_empty());
}

#[test]
fn short_ranges_are_confirmed_at_once() {
    for n in [0u64, 1, 2] {
        let block = BlockPointer { number: n, hash: None };
        let run = BisectionRun::start(block, digest(1, n), digest(2, n)).unwrap();
        assert_eq!(run.phase(), Phase::Confirmed);
        match run.next_action() {
            BisectAction::Confirmed(d) => assert_eq!(d.block.number, n),
            _ => panic!("not confirmed"),
        }
    }
}

#[test]
fn divergence_at_a_known_block() {
    let (run, action, probed) = bisect(10, 7, &[]);
    assert_eq!(probed, vec![5, 7, 6]);
    assert!(probed.len() <= 4);
    match action {
        BisectAction::Confirmed(d) => {
            assert_eq!(d.block.number, 7);
            assert!(d.proof_of_indexing1 == digest(0xaa, 7));
            assert!(d.proof_of_indexing2 == digest(0xbb, 7));
        }
        _ => panic!("not confirmed"),
    }
    assert_eq!(run.phase(), Phase::Confirmed);
    assert_eq!(run.bounds(), (6, 7));
    let outcomes: Vec<StepOutcome> = run.steps().iter().map(|s| s.outcome).collect();
    assert_eq!(outcomes, vec![StepOutcome::Agreed, StepOutcome::Diverged, StepOutcome::Agreed]);
    assert_eq!(run.diverging().block.number, 7);
}

#[test]
fn cross_check_pois_with_mismatch_in_random_block() {
    // Every divergence from block 2 on is found, within the logarithmic bound.
    for n in 2..200u64 {
        let bound = 64 - (n - 1).leading_zeros() as usize;
        for k in 2..=n {
            let (_, action, probed) = bisect(n, k, &[]);
            match action {
                BisectAction::Confirmed(d) => {
                    assert_eq!(d.block.number, k);
                    assert!(d.proof_of_indexing1 == digest(0xaa, k));
                    assert!(d.proof_of_indexing2 == digest(0xbb, k));
                }
                _ => panic!("not confirmed"),
            }
            assert!(probed.len() <= bound, "{} probes for n = {}", probed.len(), n);
        }
    }
}

#[test]
fn divergence_at_block_one_is_taken_for_block_two() {
    let (_, action, _) = bisect(10, 1, &[]);
    assert!(matches!(action, BisectAction::Confirmed(d) if d.block.number == 2));
    let (_, action, probed) = bisect(1, 1, &[]);
    assert!(matches!(action, BisectAction::Confirmed(d) if d.block.number == 1));
    assert!(probed.is_empty());
}

#[test]
fn gap_is_stepped_around() {
    let (run, action, probed) = bisect(10, 7, &[5]);
    assert_eq!(probed, vec![5, 4, 7, 5, 6]);
    assert!(matches!(action, BisectAction::Confirmed(d) if d.block.number == 7));
    let incomplete =
        run.steps().iter().filter(|s| s.outcome == StepOutcome::Incomplete).count();
    assert_eq!(incomplete, 2);
    assert!(run.steps().iter().all(|s| s.outcome != StepOutcome::Incomplete || s.block_number == 5));
}

#[test]
fn neighbours_are_tried_lower_first_at_growing_distance() {
    let (run, action, probed) = bisect(10, 9, &[2, 3, 4, 5, 6, 7]);
    assert_eq!(probed, vec![5, 4, 6, 3, 7, 2, 8, 9]);
    assert_eq!(run.bounds(), (8, 9));
    assert!(matches!(action, BisectAction::Confirmed(d) if d.block.number == 9));
}

#[test]
fn run_puts_up_with_as_many_gaps_as_its_first_window_is_wide() {
    // Seven probes go without an answer in the first window, and the
    // tenth such probe of the run is one too many.
    let (run, action, probed) = bisect(10, 7, &[2, 3, 4, 5, 6, 7, 8]);
    assert_eq!(probed, vec![5, 4, 6, 3, 7, 2, 8, 9, 5, 4, 6]);
    assert_eq!(run.bounds(), (1, 9));
    assert!(matches!(action, BisectAction::Failed(BisectionFailure::Gap)));
}

#[test]
fn window_without_an_answer_fails_with_a_gap() {
    let (run, action, probed) = bisect(4, 3, &[2, 3]);
    assert_eq!(probed, vec![2, 3]);
    assert!(matches!(action, BisectAction::Failed(BisectionFailure::Gap)));
    assert_eq!(run.phase(), Phase::Failed(BisectionFailure::Gap));
    let (_, action, probed) = bisect(10, 7, &[2, 3, 4, 5, 6, 7, 8, 9]);
    assert_eq!(probed, vec![5, 4, 6, 3, 7, 2, 8, 9]);
    assert!(matches!(action, BisectAction::Failed(BisectionFailure::Gap)));
}

#[test]
fn unindexed_block_fails_the_run() {
    let block = BlockPointer { number: 10, hash: None };
    let mut run = BisectionRun::start(block, digest(1, 10), digest(2, 10)).unwrap();
    let action = run.advance(ProbeResult::Unindexed);
    assert!(matches!(action, BisectAction::Failed(BisectionFailure::Unindexed)));
    assert_eq!(run.steps().len(), 1);
    assert_eq!(run.steps()[0].outcome, StepOutcome::Unindexed);
    assert_eq!(run.steps()[0].block_number, 5);
}

#[test]
fn ended_run_ignores_further_answers() {
    let (mut run, _, _) = bisect(10, 7, &[]);
    let steps = run.steps().len();
    let action = run.advance(ProbeResult::Unavailable);
    assert!(matches!(action, BisectAction::Confirmed(d) if d.block.number == 7));
    assert_eq!(run.steps().len(), steps);
    assert_eq!(run.bounds(), (6, 7));
}

#[test]
fn hashes_of_probed_blocks_are_kept() {
    let block = BlockPointer { number: 4, hash: Some(digest(9, 4)) };
    let mut run = BisectionRun::start(block, digest(1, 4), digest(2, 4)).unwrap();
    assert!(run.lower_hash().is_none());
    let action = run.advance(ProbeResult::Answered {
        hash: Some(digest(9, 2)),
        poi1: digest(1, 2),
        poi2: digest(1, 2),
    });
    assert!(matches!(action, BisectAction::Probe(3)));
    assert!(run.lower_hash() == Some(digest(9, 2)));
    let action = run.advance(ProbeResult::Answered {
        hash: Some(digest(9, 3)),
        poi1: digest(1, 3),
        poi2: digest(2, 3),
    });
    match action {
        BisectAction::Confirmed(d) => {
            assert!(d.block == BlockPointer { number: 3, hash: Some(digest(9, 3)) });
        }
        _ => panic!("not confirmed"),
    }
}

#[test]
fn every_first_divergence_is_found_within_the_logarithm() {
    for n in 1..=40u64 {
        let bound = (0..64u32).find(|e| (1u64 << e) >= n).unwrap() as usize;
        for k in 1..=n {
            let (run, action, probed) = bisect(n, k, &[]);
            let found = if k >= 2 { k } else if n >= 2 { 2 } else { 1 };
            assert!(matches!(action, BisectAction::Confirmed(d) if d.block.number == found));
            assert!(probed.len() <= bound, "n = {}, k = {}", n, k);
            assert_eq!(run.steps().len(), probed.len());
        }
    }
}

#[test]
fn silent_blocks_never_lead_to_another_block() {
    for n in 2..=16u64 {
        for k in 1..=n {
            for silent in 1..=n {
                let mute = [silent, silent + 1];
                let (run, action, probed) = bisect(n, k, &mute);
                let found = if k >= 2 { k } else { 2 };
                match action {
                    BisectAction::Confirmed(d) => assert_eq!(d.block.number, found),
                    BisectAction::Failed(reason) => assert_eq!(reason, BisectionFailure::Gap),
                    BisectAction::Probe(_) => panic!("still probing"),
                }
                assert!(probed.len() <= 2 * n as usize);
                let incomplete =
                    run.steps().iter().filter(|s| s.outcome == StepOutcome::Incomplete).count();
                assert!(incomplete as u64 <= n);
                let mut answered = run.bounds().1 - run.bounds().0;
                assert!(answered <= n - 1);
                answered = (n - 1) - answered;
                assert!(probed.len() - incomplete <= answered as usize);
            }
        }
    }
}
