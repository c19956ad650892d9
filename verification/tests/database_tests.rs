use pytest_diff_core::{ChangedBlocks, Fingerprint, TestmonDatabase};

fn fingerprint(name: &str, checksums: Vec<i32>) -> Fingerprint {
    Fingerprint {
        filename: name.to_string(),
        checksums,
        file_hash: format!("hash-of-{}", name),
        mtime: 11,
        blocks: None,
    }
}

fn changed(name: &str, checksums: Vec<i32>) -> ChangedBlocks {
    ChangedBlocks { filename: name.to_string(), checksums }
}

#[test]
fn test_database_creation() {
    let db = TestmonDatabase::new(":memory:");
    assert!(db.is_ok());
}

#[test]
fn new_store_is_empty_and_remembers_its_path() {
    let db = TestmonDatabase::new("/tmp/.testmondata").unwrap();
    assert_eq!(db.db_path(), "/tmp/.testmondata");
    assert!(db.get_baseline_fingerprint("a.py").is_none());
    assert!(db.get_affected_tests(&vec![changed("a.py", vec![1])]).is_empty());
}

#[test]
fn baseline_batch_upserts_and_counts() {
    let mut db = TestmonDatabase::new(":memory:").unwrap();
    let count = db.save_baseline_fingerprints_batch(vec![
        fingerprint("a.py", vec![1, 2]),
        fingerprint("b.py", vec![3]),
    ]);
    assert_eq!(count, 2);
    assert_eq!(db.get_baseline_fingerprint("a.py"), Some(fingerprint("a.py", vec![1, 2])));
    assert_eq!(db.get_baseline_fingerprint("b.py"), Some(fingerprint("b.py", vec![3])));
    assert_eq!(db.get_baseline_fingerprint("c.py"), None);

    let count = db.save_baseline_fingerprints_batch(vec![
        fingerprint("a.py", vec![7]),
        fingerprint("c.py", vec![8]),
        fingerprint("c.py", vec![9]),
    ]);
    assert_eq!(count, 3);
    assert_eq!(db.get_baseline_fingerprint("a.py").unwrap().checksums, vec![7]);
    assert_eq!(db.get_baseline_fingerprint("b.py").unwrap().checksums, vec![3]);
    assert_eq!(db.get_baseline_fingerprint("c.py").unwrap().checksums, vec![9]);
    assert_eq!(db.save_baseline_fingerprints_batch(vec![]), 0);
}

#[test]
fn stored_fingerprints_have_no_block_list() {
    let mut db = TestmonDatabase::new(":memory:").unwrap();
    let full = pytest_diff_core::calculate_fingerprint("a.py", "def f():\n    pass\n", 3).unwrap();
    assert!(full.blocks.is_some());
    db.save_baseline_fingerprints_batch(vec![full.clone()]);
    let stored = db.get_baseline_fingerprint("a.py").unwrap();
    assert_eq!(stored.blocks, None);
    assert_eq!(stored.checksums, full.checksums);
    assert_eq!(stored.file_hash, full.file_hash);
    assert_eq!(stored.mtime, 3);
}

#[test]
fn affected_tests_share_a_lost_checksum_of_a_changed_file() {
    let mut db = TestmonDatabase::new(":memory:").unwrap();
    db.save_test_execution("t1", vec![fingerprint("a.py", vec![1, 2])], 10, false);
    db.save_test_execution("t2", vec![fingerprint("a.py", vec![3]), fingerprint("b.py", vec![2])], 20, true);
    db.save_test_execution("t3", vec![], 30, false);

    assert_eq!(db.get_affected_tests(&vec![changed("a.py", vec![2])]), vec!["t1".to_string()]);
    assert_eq!(db.get_affected_tests(&vec![changed("b.py", vec![2])]), vec!["t2".to_string()]);
    assert!(db.get_affected_tests(&vec![changed("a.py", vec![9])]).is_empty());
    assert!(db.get_affected_tests(&vec![changed("c.py", vec![1, 2, 3])]).is_empty());
    assert!(db.get_affected_tests(&vec![changed("a.py", vec![])]).is_empty());
    assert!(db.get_affected_tests(&vec![]).is_empty());

    let mut both = db.get_affected_tests(&vec![changed("a.py", vec![1, 3]), changed("b.py", vec![2])]);
    both.sort();
    assert_eq!(both, vec!["t1".to_string(), "t2".to_string()]);
}

#[test]
fn saving_a_test_again_upserts_its_files() {
    let mut db = TestmonDatabase::new(":memory:").unwrap();
    db.save_test_execution("t1", vec![fingerprint("a.py", vec![1]), fingerprint("b.py", vec![5])], 10, false);
    db.save_test_execution("t1", vec![fingerprint("a.py", vec![2])], 12, true);
    assert!(db.get_affected_tests(&vec![changed("a.py", vec![1])]).is_empty());
    assert_eq!(db.get_affected_tests(&vec![changed("a.py", vec![2])]), vec!["t1".to_string()]);
    assert_eq!(db.get_affected_tests(&vec![changed("b.py", vec![5])]), vec!["t1".to_string()]);
}

#[test]
fn baseline_and_test_rows_do_not_mix() {
    let mut db = TestmonDatabase::new(":memory:").unwrap();
    db.save_baseline_fingerprints_batch(vec![fingerprint("a.py", vec![1])]);
    assert!(db.get_affected_tests(&vec![changed("a.py", vec![1])]).is_empty());
    db.save_test_execution("t", vec![fingerprint("b.py", vec![1])], 1, false);
    assert!(db.get_baseline_fingerprint("b.py").is_none());
}
