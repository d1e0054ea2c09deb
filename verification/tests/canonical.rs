//! Tests of the parameter set and its canonical query string.

use landscape_api::canonical_query;
use landscape_api::ParamSet;

fn get_param(m: &ParamSet, key: &str) -> Option<String> {
    for (k, v) in m.entries().iter() {
        if k == key {
            return Some(v.clone());
        }
    }
    None
}

#[test]
fn test_canonical_is_insertion_order_independent() {
    let mut a = ParamSet::new();
    a.insert("zebra".to_string(), "1".to_string());
    a.insert("alpha".to_string(), "2".to_string());
    a.insert("mid".to_string(), "3".to_string());

    let mut b = ParamSet::new();
    b.insert("mid".to_string(), "3".to_string());
    b.insert("zebra".to_string(), "1".to_string());
    b.insert("alpha".to_string(), "2".to_string());

    assert_eq!(canonical_query(&a), canonical_query(&b));
    assert_eq!(canonical_query(&a), "alpha=2&mid=3&zebra=1");
}

#[test]
fn test_canonical_keys_ascend() {
    let mut m = ParamSet::new();
    m.insert("b".to_string(), "2".to_string());
    m.insert("a".to_string(), "1".to_string());
    m.insert("c".to_string(), "3".to_string());
    let keys: Vec<&str> = m.entries().iter().map(|p| p.0.as_str()).collect();
    assert_eq!(keys, vec!["a", "b", "c"]);
}

#[test]
fn test_insert_replaces_existing_key() {
    let mut m = ParamSet::new();
    m.insert("action".to_string(), "One".to_string());
    m.insert("action".to_string(), "Two".to_string());
    assert_eq!(m.len(), 1);
    assert_eq!(get_param(&m, "action"), Some("Two".to_string()));
}

#[test]
fn test_canonical_encodes_keys_and_values() {
    let mut m = ParamSet::new();
    m.insert("note".to_string(), "a b".to_string());
    assert_eq!(canonical_query(&m), "note=a%20b");
}

#[test]
fn test_canonical_leaves_timestamp_and_file_values_raw() {
    let mut m = ParamSet::new();
    m.insert("timestamp".to_string(), "2024-01-02T03%3A04%3A05Z".to_string());
    m.insert("file".to_string(), "x%20y".to_string());
    m.insert("filename".to_string(), "a b".to_string());
    m.insert("other".to_string(), "a b".to_string());
    assert_eq!(
        canonical_query(&m),
        "file=x%20y&filename=a b&other=a%20b&timestamp=2024-01-02T03%3A04%3A05Z"
    );
}

#[test]
fn test_canonical_empty_set_is_empty() {
    let m = ParamSet::new();
    assert_eq!(canonical_query(&m), "");
}
