use cross_checker::error::ErrorKind;
use cross_checker::retry::{RetryDecision, RetryState, MAX_CONSECUTIVE_ERRORS, RETRY_BACKOFF_SECONDS};
use cross_checker::text::{contains_bytes, join, parse_u64, strip_0x_markers, u64_to_decimal};
use cross_checker::types::{BlockPointer, Bytes32};

#[test]
fn decimal_rendering() {
    assert_eq!(u64_to_decimal(0), "0");
    assert_eq!(u64_to_decimal(7), "7");
    assert_eq!(u64_to_decimal(10), "10");
    assert_eq!(u64_to_decimal(1234567890), "1234567890");
    assert_eq!(u64_to_decimal(u64::MAX), "18446744073709551615");
}

#[test]
fn decimal_parsing() {
    assert_eq!(parse_u64("0"), Some(0));
    assert_eq!(parse_u64("007"), Some(7));
    assert_eq!(parse_u64("+42"), Some(42));
    assert_eq!(parse_u64("18446744073709551615"), Some(u64::MAX));
    assert_eq!(parse_u64("18446744073709551616"), None);
    assert_eq!(parse_u64("99999999999999999999999"), None);
    assert_eq!(parse_u64(""), None);
    assert_eq!(parse_u64("+"), None);
    assert_eq!(parse_u64("-1"), None);
    assert_eq!(parse_u64("++1"), None);
    assert_eq!(parse_u64("1_000"), None);
    assert_eq!(parse_u64(" 1"), None);
    assert_eq!(parse_u64("1 "), None);
    assert_eq!(parse_u64("12a"), None);
    assert_eq!(parse_u64("99999999999999999999999x"), None);
}

#[test]
fn decimal_parsing_agrees_with_std() {
    for text in ["0", "1", "+5", "00", "4294967296", "18446744073709551615", "18446744073709551616", "", "+", "-0", "0x10", "٣"] {
        assert_eq!(parse_u64(text), text.parse::<u64>().ok(), "{:?}", text);
    }
    for n in [0u64, 9, 10, 99, 100, 12345, u64::MAX - 1, u64::MAX] {
        assert_eq!(u64_to_decimal(n), n.to_string());
        assert_eq!(parse_u64(&u64_to_decimal(n)), Some(n));
    }
}

#[test]
fn searching_bytes() {
    assert!(contains_bytes(b"hello world", b"lo w"));
    assert!(contains_bytes(b"hello world", b"hello"));
    assert!(contains_bytes(b"hello world", b"world"));
    assert!(contains_bytes(b"hello world", b""));
    assert!(contains_bytes(b"", b""));
    assert!(!contains_bytes(b"hello world", b"worlds"));
    assert!(!contains_bytes(b"hello", b"hello world"));
    assert!(!contains_bytes(b"aaab", b"aba"));
    assert!(contains_bytes(b"aaab", b"aab"));
}

#[test]
fn joining_texts() {
    let parts = |items: &[&str]| items.iter().map(|s| s.to_string()).collect::<Vec<_>>();
    assert_eq!(join(&parts(&[]), ","), "");
    assert_eq!(join(&parts(&["a"]), ","), "a");
    assert_eq!(join(&parts(&["a", "b", "c"]), ","), "a,b,c");
    assert_eq!(join(&parts(&["", "", ""]), ", "), ", , ");
}

#[test]
fn block_pointer_text() {
    assert_eq!(BlockPointer { number: 17, hash: None }.to_string(), "#17 (no hash)");
    let hash = Bytes32([0xab; 32]);
    assert_eq!(
        BlockPointer { number: 0, hash: Some(hash) }.to_string(),
        format!("#0 (0x{})", "ab".repeat(32))
    );
}

#[test]
fn five_retries_then_the_error_is_forwarded() {
    assert_eq!((MAX_CONSECUTIVE_ERRORS, RETRY_BACKOFF_SECONDS), (5, 1));
    let mut state = RetryState::new();
    for _ in 0..5 {
        assert_eq!(state.on_error(), RetryDecision::WaitRetry { seconds: 1 });
    }
    assert_eq!(state.consecutive_errors, 5);
    assert_eq!(state.on_error(), RetryDecision::ForwardError);
    assert_eq!(state.consecutive_errors, 0);
    assert_eq!(state.on_error(), RetryDecision::WaitRetry { seconds: 1 });
}

#[test]
fn errors_of_one_indexer_stay_in_their_batch() {
    assert!(ErrorKind::Transport.is_per_indexer());
    assert!(ErrorKind::Protocol.is_per_indexer());
    assert!(ErrorKind::NotSupported.is_per_indexer());
    assert!(!ErrorKind::Storage.is_per_indexer());
    assert!(!ErrorKind::Invariant.is_per_indexer());
    assert!(!ErrorKind::Cancelled.is_per_indexer());
}

#[test]
fn leading_markers_are_taken_off() {
    assert_eq!(strip_0x_markers(""), "");
    assert_eq!(strip_0x_markers("0"), "0");
    assert_eq!(strip_0x_markers("0x"), "");
    assert_eq!(strip_0x_markers("0xab"), "ab");
    assert_eq!(strip_0x_markers("0x0x0xab"), "ab");
    assert_eq!(strip_0x_markers("0x0"), "0");
    assert_eq!(strip_0x_markers("local"), "local");
    assert_eq!(strip_0x_markers("0xlocal"), "local");
    assert_eq!(strip_0x_markers("ab0x"), "ab0x");
    assert_eq!(strip_0x_markers("0Xab"), "0Xab");
    assert_eq!(strip_0x_markers("0x\u{e9}t\u{e9}"), "\u{e9}t\u{e9}");
}
