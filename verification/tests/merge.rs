//! Tests for the candidate merge: lexicographic sorting and deduplication.

use tag2dir::aggregate::sorted_dedup;

#[test]
fn duplicates_are_dropped_and_order_is_byte_wise() {
    let items = vec![
        "pear".to_string(),
        "Apple".to_string(),
        "pear".to_string(),
        "apple".to_string(),
    ];
    let merged = sorted_dedup(&items);
    assert_eq!(
        merged,
        vec!["Apple".to_string(), "apple".to_string(), "pear".to_string()]
    );
}

#[test]
fn empty_input_stays_empty() {
    let merged = sorted_dedup(&Vec::new());
    assert!(merged.is_empty());
}

#[test]
fn multibyte_values_sort_by_code_point() {
    let items = vec!["\u{4eba}\u{7269}".to_string(), "zebra".to_string()];
    let merged = sorted_dedup(&items);
    assert_eq!(
        merged,
        vec!["zebra".to_string(), "\u{4eba}\u{7269}".to_string()]
    );
}
