use pytest_diff_core::{Cache, Fingerprint};

fn fingerprint(name: &str, checksums: Vec<i32>) -> Fingerprint {
    Fingerprint {
        filename: name.to_string(),
        checksums,
        file_hash: "abc".to_string(),
        mtime: 1,
        blocks: None,
    }
}

#[test]
fn test_cache_fingerprint() {
    let mut cache = Cache::new();
    let path = "test.py";

    let fp = fingerprint("test.py", vec![123, 456]);

    cache.insert_fingerprint(path.to_string(), fp.clone());
    let retrieved = cache.get_fingerprint(path).unwrap();

    assert_eq!(retrieved.filename, fp.filename);
    assert_eq!(retrieved.checksums, fp.checksums);
}

#[test]
fn test_cache_test_mapping() {
    let mut cache = Cache::new();

    cache.insert_test_mapping("test_foo".to_string(), vec![1, 2, 3]);
    let retrieved = cache.get_test_mapping("test_foo").unwrap();

    assert_eq!(retrieved, vec![1, 2, 3]);
}

#[test]
fn test_cache_clear() {
    let mut cache = Cache::new();
    let path = "test.py";

    let fp = fingerprint("test.py", vec![123]);

    cache.insert_fingerprint(path.to_string(), fp);
    cache.clear();

    assert!(cache.get_fingerprint(path).is_none());
}

#[test]
fn missing_keys_are_not_found() {
    let mut cache = Cache::new();
    assert!(cache.get_fingerprint("a.py").is_none());
    assert!(cache.get_test_mapping("t").is_none());
    cache.insert_fingerprint("a.py".to_string(), fingerprint("a.py", vec![1]));
    assert!(cache.get_fingerprint("b.py").is_none());
    assert!(cache.get_test_mapping("a.py").is_none());
}

#[test]
fn storing_again_replaces_the_value() {
    let mut cache = Cache::with_capacity(2);
    cache.insert_fingerprint("a.py".to_string(), fingerprint("a.py", vec![1]));
    cache.insert_fingerprint("a.py".to_string(), fingerprint("a.py", vec![2]));
    assert_eq!(cache.get_fingerprint("a.py").unwrap().checksums, vec![2]);
    cache.insert_test_mapping("t".to_string(), vec![1]);
    cache.insert_test_mapping("t".to_string(), vec![2, 3]);
    assert_eq!(cache.get_test_mapping("t"), Some(vec![2, 3]));
}

#[test]
fn least_recently_used_entry_is_dropped_when_full() {
    let mut cache = Cache::with_capacity(2);
    cache.insert_fingerprint("a.py".to_string(), fingerprint("a.py", vec![1]));
    cache.insert_fingerprint("b.py".to_string(), fingerprint("b.py", vec![2]));
    assert!(cache.get_fingerprint("a.py").is_some());
    cache.insert_fingerprint("c.py".to_string(), fingerprint("c.py", vec![3]));
    assert!(cache.get_fingerprint("b.py").is_none());
    assert!(cache.get_fingerprint("a.py").is_some());
    assert!(cache.get_fingerprint("c.py").is_some());

    cache.insert_fingerprint("d.py".to_string(), fingerprint("d.py", vec![4]));
    assert!(cache.get_fingerprint("a.py").is_none());
    assert!(cache.get_fingerprint("c.py").is_some());
    assert!(cache.get_fingerprint("d.py").is_some());
}

#[test]
fn replacing_a_value_drops_nothing() {
    let mut cache = Cache::with_capacity(2);
    cache.insert_test_mapping("a".to_string(), vec![1]);
    cache.insert_test_mapping("b".to_string(), vec![2]);
    cache.insert_test_mapping("a".to_string(), vec![3]);
    assert_eq!(cache.get_test_mapping("b"), Some(vec![2]));
    assert_eq!(cache.get_test_mapping("a"), Some(vec![3]));
    cache.insert_test_mapping("c".to_string(), vec![4]);
    assert_eq!(cache.get_test_mapping("b"), None);
    assert_eq!(cache.get_test_mapping("a"), Some(vec![3]));
    assert_eq!(cache.get_test_mapping("c"), Some(vec![4]));
}

#[test]
fn the_two_maps_are_bounded_apart() {
    let mut cache = Cache::with_capacity(1);
    cache.insert_fingerprint("a.py".to_string(), fingerprint("a.py", vec![1]));
    cache.insert_test_mapping("t".to_string(), vec![9]);
    assert!(cache.get_fingerprint("a.py").is_some());
    assert_eq!(cache.get_test_mapping("t"), Some(vec![9]));
    cache.insert_test_mapping("u".to_string(), vec![8]);
    assert_eq!(cache.get_test_mapping("t"), None);
    assert!(cache.get_fingerprint("a.py").is_some());
}

#[test]
fn cache_without_capacity_holds_nothing() {
    let mut cache = Cache::with_capacity(0);
    cache.insert_fingerprint("a.py".to_string(), fingerprint("a.py", vec![1]));
    cache.insert_test_mapping("t".to_string(), vec![1]);
    assert!(cache.get_fingerprint("a.py").is_none());
    assert!(cache.get_test_mapping("t").is_none());
}

#[test]
fn clear_empties_both_maps() {
    let mut cache = Cache::with_capacity(3);
    cache.insert_fingerprint("a.py".to_string(), fingerprint("a.py", vec![1]));
    cache.insert_test_mapping("t".to_string(), vec![1]);
    cache.clear();
    assert!(cache.get_fingerprint("a.py").is_none());
    assert!(cache.get_test_mapping("t").is_none());
    cache.insert_fingerprint("b.py".to_string(), fingerprint("b.py", vec![2]));
    assert_eq!(cache.get_fingerprint("b.py").unwrap().checksums, vec![2]);
}
