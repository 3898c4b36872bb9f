use albion_market::text::{bytes_eq, bytes_lt, decimal_text, join_texts, text_eq, text_lt};

#[test]
fn text_equality() {
    assert!(text_eq("Thetford", "Thetford"));
    assert!(!text_eq("Thetford", "thetford"));
    assert!(!text_eq("Thet", "Thetford"));
    assert!(text_eq("", ""));
}

#[test]
fn text_order_is_byte_order() {
    assert!(text_lt("Apple", "Banana"));
    assert!(!text_lt("Banana", "Apple"));
    assert!(text_lt("Ab", "Abc"));
    assert!(!text_lt("Abc", "Abc"));
    assert!(text_lt("Z", "a"));
    assert!(text_lt("z", "Ж"));
    assert_eq!(text_lt("Меч", "Лук"), "Меч" < "Лук");
}

#[test]
fn byte_order_and_equality() {
    assert!(bytes_lt(&[1, 2], &[1, 3]));
    assert!(bytes_lt(&[], &[0]));
    assert!(!bytes_lt(&[0], &[]));
    assert!(bytes_eq(&[4, 5], &[4, 5]));
    assert!(!bytes_eq(&[4, 5], &[4]));
}

#[test]
fn decimal_matches_to_string() {
    for n in [0u32, 7, 10, 99, 100, 12345, 4294967295] {
        assert_eq!(decimal_text(n), n.to_string());
    }
}

#[test]
fn join_matches_slice_join() {
    let ids = vec!["T4_BAG".to_string(), "T5_BAG".to_string(), "T6_CAPE".to_string()];
    assert_eq!(join_texts(&ids, ","), "T4_BAG,T5_BAG,T6_CAPE");
    assert_eq!(join_texts(&ids[..1], ","), "T4_BAG");
    assert_eq!(join_texts(&[], ","), "");
}
