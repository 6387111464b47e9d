use cross_checker::hexcodec::{
    decode_bytes, encode_hex, encode_prefixed, DecodeError, HexError, HexString,
};
use cross_checker::ordering::Rank;
use cross_checker::types::{
    bytes_eq, proof_of_indexing_of, BlockPointer, Bytes32, Bytes32Error, DivergingBlock, Indexer, IndexerId,
    IndexingStatus, ProofOfIndexing, SubgraphDeployment, WritablePoi,
};

fn digest(fill: u8, last: u8) -> Bytes32 {
    let mut bytes = [fill; 32];
    bytes[31] = last;
    Bytes32(bytes)
}

fn indexer(address: u8, name: &str) -> Indexer {
    Indexer::new(vec![address; 20], Some(name.to_string()))
}

#[test]
fn encodes_lowercase_two_digits_per_byte() {
    assert_eq!(encode_hex(&[1, 2, 3, 15, 16]), "0102030f10");
    assert_eq!(encode_hex(b"Hello world!"), "48656c6c6f20776f726c6421");
    assert_eq!(encode_hex(&[]), "");
    assert_eq!(encode_prefixed(&[0xf9, 0xb4, 0xca]), "0xf9b4ca");
    assert_eq!(encode_prefixed(&[]), "0x");
}

#[test]
fn decodes_either_case() {
    assert_eq!(decode_bytes("0xf9B4Ca"), Ok(vec![0xf9, 0xb4, 0xca]));
    assert_eq!(decode_bytes("0x"), Ok(vec![]));
}

#[test]
fn decode_refuses_missing_prefix() {
    assert_eq!(decode_bytes("f9b4ca"), Err(DecodeError::MissingPrefix));
    assert_eq!(decode_bytes(""), Err(DecodeError::MissingPrefix));
    assert_eq!(decode_bytes("0"), Err(DecodeError::MissingPrefix));
}

#[test]
fn decode_refuses_odd_length_before_bad_digits() {
    assert_eq!(decode_bytes("0x123"), Err(DecodeError::Hex(HexError::OddLength)));
    assert_eq!(decode_bytes("0xzz1"), Err(DecodeError::Hex(HexError::OddLength)));
}

#[test]
fn decode_reports_first_bad_digit() {
    assert_eq!(
        decode_bytes("0x12g4zz"),
        Err(DecodeError::Hex(HexError::InvalidHexCharacter { c: 'g', index: 2 }))
    );
}

#[test]
fn hex_string_round_trip() {
    let bytes = vec![0u8, 1, 127, 128, 255];
    let text = HexString(bytes.clone()).to_string();
    assert_eq!(text, "0x00017f80ff");
    assert_eq!(HexString::parse(&text).unwrap().0, bytes);
    assert!(matches!(HexString::parse("00"), Err(DecodeError::MissingPrefix)));
}

#[test]
fn bytes32_from_text_with_and_without_markers() {
    let text = "aa".repeat(31) + "01";
    let expected = digest(0xaa, 0x01);
    assert_eq!(Bytes32::try_from_str(&text), Ok(expected));
    assert_eq!(Bytes32::try_from_str(&format!("0x{}", text)), Ok(expected));
    assert_eq!(Bytes32::try_from_str(&format!("0x0x{}", text)), Ok(expected));
    assert_eq!(Bytes32::try_from_str(&text.to_uppercase()), Ok(expected));
}

#[test]
fn bytes32_from_text_errors() {
    assert_eq!(
        Bytes32::try_from_str("0x123"),
        Err(Bytes32Error::Hex(HexError::OddLength))
    );
    assert_eq!(
        Bytes32::try_from_str("0x1234"),
        Err(Bytes32Error::Hex(HexError::InvalidStringLength))
    );
    assert_eq!(
        Bytes32::try_from_str(""),
        Err(Bytes32Error::Hex(HexError::InvalidStringLength))
    );
    let bad = "0x".to_string() + &"aa".repeat(31) + "0x";
    assert_eq!(
        Bytes32::try_from_str(&bad),
        Err(Bytes32Error::Hex(HexError::InvalidHexCharacter { c: 'x', index: 63 }))
    );
}

#[test]
fn bytes32_from_bytes() {
    assert_eq!(Bytes32::try_from_vec(vec![7; 32]), Ok(Bytes32([7; 32])));
    assert_eq!(Bytes32::try_from_vec(vec![7; 31]), Err(Bytes32Error::WrongLength(31)));
    assert_eq!(Bytes32::try_from_slice(&[7; 33]), Err(Bytes32Error::WrongLength(33)));
    assert_eq!(Bytes32([9; 32]).to_vec(), vec![9; 32]);
}

#[test]
fn bytes32_renders_with_prefix() {
    let text = digest(0xaa, 0x01).to_string();
    assert_eq!(text, "0x".to_string() + &"aa".repeat(31) + "01");
    assert_eq!(Bytes32::try_from_str(&text), Ok(digest(0xaa, 0x01)));
}

#[test]
fn equality_of_values() {
    assert!(bytes_eq(&[1, 2, 3], &[1, 2, 3]));
    assert!(!bytes_eq(&[1, 2, 3], &[1, 2]));
    assert!(!bytes_eq(&[1, 2, 3], &[1, 2, 4]));
    assert!(digest(1, 2) == digest(1, 2));
    assert!(digest(1, 2) != digest(1, 3));
    let a = BlockPointer { number: 5, hash: Some(digest(1, 1)) };
    assert!(a == BlockPointer { number: 5, hash: Some(digest(1, 1)) });
    assert!(a != BlockPointer { number: 5, hash: None });
    assert!(a != BlockPointer { number: 6, hash: Some(digest(1, 1)) });
    assert!(a != BlockPointer { number: 5, hash: Some(digest(1, 2)) });
}

#[test]
fn indexers_are_the_same_by_address() {
    let a = indexer(1, "one");
    let b = Indexer::new(vec![1; 20], None);
    let c = indexer(2, "one");
    assert!(a.same_as(&b));
    assert!(!a.same_as(&c));
    assert_eq!(a.address(), &[1u8; 20][..]);
    assert_eq!(a.name(), Some(&"one".to_string()));
    assert_eq!(b.name(), None);
    assert_eq!(a.address_string(), "0x".to_string() + &"01".repeat(20));
}

#[test]
fn status_equality_ignores_earliest_block() {
    let status = |earliest: u64, latest: u64| IndexingStatus {
        indexer: indexer(1, "one"),
        deployment: SubgraphDeployment("Qm1".to_string()),
        network: "mainnet".to_string(),
        latest_block: BlockPointer { number: latest, hash: None },
        earliest_block_num: earliest,
    };
    assert!(status(0, 10) == status(5, 10));
    assert!(status(0, 10) != status(0, 11));
    let copy = status(3, 10).clone();
    assert_eq!(copy.earliest_block_num, 3);
    assert!(copy == status(3, 10));
}

#[test]
fn writable_poi_getters() {
    let poi = ProofOfIndexing {
        indexer: indexer(3, "three"),
        deployment: SubgraphDeployment("Qm3".to_string()),
        block: BlockPointer { number: 10, hash: Some(digest(2, 2)) },
        proof_of_indexing: digest(0xaa, 1),
    };
    assert_eq!(poi.deployment_cid(), "Qm3");
    assert!(poi.indexer_id().same_as(&indexer(3, "")));
    assert!(WritablePoi::block(&poi) == poi.block);
    assert_eq!(WritablePoi::proof_of_indexing(&poi), &digest(0xaa, 1).0[..]);
    assert!(poi.clone() == poi);
    let copy = proof_of_indexing_of(&poi).unwrap();
    assert!(copy == poi);
    assert_eq!(copy.indexer.name, Some("three".to_string()));
}

#[test]
fn diverging_block_needs_different_digests() {
    let block = BlockPointer { number: 7, hash: None };
    assert!(DivergingBlock::new(block, digest(1, 1), digest(1, 1)).is_none());
    let d = DivergingBlock::new(block, digest(1, 1), digest(1, 2)).unwrap();
    assert!(d.proof_of_indexing1 == digest(1, 1) && d.proof_of_indexing2 == digest(1, 2));
}

#[test]
fn bytes32_through_the_conversion_traits() {
    let text = "0x".to_string() + &"0f".repeat(32);
    assert_eq!(Bytes32::try_from(text.as_str()), Ok(Bytes32([0x0f; 32])));
    assert_eq!(Bytes32::try_from("0x0f"), Err(Bytes32Error::Hex(HexError::InvalidStringLength)));
    assert_eq!(Bytes32::try_from(vec![3u8; 32]), Ok(Bytes32([3; 32])));
    assert_eq!(Bytes32::try_from(vec![3u8; 2]), Err(Bytes32Error::WrongLength(2)));
}

#[test]
fn indexers_are_named_and_ordered_by_address() {
    let one = indexer(1, "one");
    let two = indexer(2, "two");
    assert!(one == Indexer::new(vec![1; 20], None));
    assert!(one != two);
    assert_eq!(one.order(&two), Rank::Before);
    assert_eq!(two.order(&one), Rank::After);
    assert_eq!(one.order(&one), Rank::Same);
    assert_eq!(one.id(), "0x".to_string() + &"01".repeat(20));
    assert_eq!(Indexer::new(vec![], Some("local".to_string())).id(), "local");
    assert_eq!(Indexer::new(vec![], None).id(), "");
}

#[test]
fn indexers_are_hashed_by_their_address() {
    let first = Indexer::new(vec![7; 20], Some("first".to_string()));
    let renamed = Indexer::new(vec![7; 20], Some("renamed".to_string()));
    let other = Indexer::new(vec![8; 20], Some("first".to_string()));
    assert!(first == renamed && first.key() == renamed.key());
    assert!(first != other && first.key() != other.key());
    assert_eq!(first.key().0, vec![7; 20]);
    let keys: std::collections::HashSet<_> =
        [first.key(), renamed.key(), other.key()].into_iter().collect();
    assert_eq!(keys.len(), 2);
}
