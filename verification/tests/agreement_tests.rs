use cross_checker::agreement::{
    agreement_ratio, count_occurrences, poi_agreement_ratios, some_majority, AgreementError,
    PoiAgreementRatio,
};
use cross_checker::error::ErrorKind;
use cross_checker::models::{Block, IndexerRow, PoI, SgDeployment};

fn stored(id: i32, cid: &str, indexer: i32, fill: u8) -> PoI {
    PoI {
        id,
        poi: vec![fill; 32],
        created_at: 0,
        sg_deployment: SgDeployment { id: 1, cid: cid.to_string(), network_id: 1, created_at: 0 },
        indexer: IndexerRow { id: indexer, name: None, address: Some(vec![indexer as u8; 20]), created_at: 0 },
        block: Block { id: 1, network_id: 1, number: 10, hash: vec![1; 32] },
    }
}

#[test]
fn counts_digests() {
    let digests = vec![vec![1u8; 32], vec![2; 32], vec![1; 32]];
    assert_eq!(count_occurrences(&digests, &vec![1; 32]), 2);
    assert_eq!(count_occurrences(&digests, &vec![3; 32]), 0);
    assert!(some_majority(&digests));
    assert!(!some_majority(&vec![vec![1u8; 32], vec![2; 32]]));
    assert!(!some_majority(&vec![]));
}

#[test]
fn identical_pois_of_two_indexers_are_in_consensus() {
    let digests = vec![vec![0xaa; 32], vec![0xaa; 32]];
    for id in [1, 2] {
        assert_eq!(
            agreement_ratio(id, &vec![0xaa; 32], &digests),
            Ok(PoiAgreementRatio {
                poi_id: id,
                total_indexers: 2,
                n_agreeing_indexers: 2,
                n_disagreeing_indexers: 0,
                has_consensus: true,
                in_consensus: true,
            })
        );
    }
}

#[test]
fn strict_majority_is_needed() {
    let split = vec![vec![1u8; 32], vec![1; 32], vec![2; 32], vec![2; 32]];
    let ratio = agreement_ratio(7, &vec![1; 32], &split).unwrap();
    assert_eq!(
        ratio,
        PoiAgreementRatio {
            poi_id: 7,
            total_indexers: 4,
            n_agreeing_indexers: 2,
            n_disagreeing_indexers: 2,
            has_consensus: false,
            in_consensus: false,
        }
    );
    let three_of_five = vec![vec![1u8; 32], vec![1; 32], vec![2; 32], vec![3; 32], vec![1; 32]];
    let majority = agreement_ratio(1, &vec![1; 32], &three_of_five).unwrap();
    assert!(majority.has_consensus && majority.in_consensus);
    assert_eq!((majority.n_agreeing_indexers, majority.n_disagreeing_indexers), (3, 2));
    let minority = agreement_ratio(2, &vec![2; 32], &three_of_five).unwrap();
    assert!(minority.has_consensus && !minority.in_consensus);
    assert_eq!((minority.n_agreeing_indexers, minority.n_disagreeing_indexers), (1, 4));
}

#[test]
fn agreement_errors() {
    assert_eq!(agreement_ratio(1, &vec![1; 32], &vec![]), Err(AgreementError::NoPoisForDeployment));
    assert_eq!(
        agreement_ratio(1, &vec![1; 32], &vec![vec![2; 32]]),
        Err(AgreementError::NoMatchingPoi)
    );
    assert_eq!(AgreementError::NoMatchingPoi.kind(), ErrorKind::Invariant);
}

#[test]
fn ratios_per_deployment() {
    let live = vec![
        stored(1, "QmA", 1, 0xaa),
        stored(2, "QmA", 2, 0xaa),
        stored(3, "QmA", 3, 0xbb),
        stored(4, "QmB", 1, 0xcc),
        stored(5, "QmB", 2, 0xdd),
    ];
    let mine = vec![stored(1, "QmA", 1, 0xaa), stored(4, "QmB", 1, 0xcc)];
    let ratios = poi_agreement_ratios(&mine, &live).unwrap();
    assert_eq!(
        ratios,
        vec![
            PoiAgreementRatio {
                poi_id: 1,
                total_indexers: 3,
                n_agreeing_indexers: 2,
                n_disagreeing_indexers: 1,
                has_consensus: true,
                in_consensus: true,
            },
            PoiAgreementRatio {
                poi_id: 4,
                total_indexers: 2,
                n_agreeing_indexers: 1,
                n_disagreeing_indexers: 1,
                has_consensus: false,
                in_consensus: false,
            },
        ]
    );
    assert_eq!(poi_agreement_ratios(&vec![], &live), Ok(vec![]));
}

#[test]
fn ratios_fail_on_the_first_inconsistent_poi() {
    let live = vec![stored(1, "QmA", 1, 0xaa)];
    let unknown_deployment = vec![stored(1, "QmA", 1, 0xaa), stored(9, "QmZ", 1, 0xaa)];
    assert_eq!(
        poi_agreement_ratios(&unknown_deployment, &live),
        Err(AgreementError::NoPoisForDeployment)
    );
    let unknown_digest = vec![stored(9, "QmA", 1, 0xee), stored(9, "QmZ", 1, 0xaa)];
    assert_eq!(poi_agreement_ratios(&unknown_digest, &live), Err(AgreementError::NoMatchingPoi));
}

#[test]
fn poi_hex_has_no_prefix() {
    assert_eq!(stored(1, "QmA", 1, 0xab).poi_hex(), "ab".repeat(32));
}
