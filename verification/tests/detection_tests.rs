use pytest_diff_core::changes::classify_change;
use pytest_diff_core::{
    calculate_fingerprint, check_file_changed, detect_changes, parse_module,
    process_coverage_data, save_baseline, FileCoverage, SourceFile, TestmonDatabase,
};

const V1: &str = "def foo():\n    return 1\n\ndef bar():\n    return 2\n";
const V2: &str = "def foo():\n    return 1\n\ndef bar():\n    return 3\n";
const T0: u64 = 1_700_000_000_000_000_000;

fn file(name: &str, mtime: u64, content: &str) -> SourceFile {
    SourceFile { filename: name.to_string(), mtime, content: content.to_string() }
}

fn scopes() -> Vec<String> {
    vec!["/proj".to_string()]
}

fn checksum_of(source: &str, name: &str) -> i32 {
    parse_module(source).unwrap().iter().find(|b| b.name == name).unwrap().checksum
}

#[test]
fn body_edit_is_reported_with_the_old_function_checksum() {
    let mut db = TestmonDatabase::new(":memory:").unwrap();
    let before = vec![file("/proj/src/m.py", T0, V1)];
    assert_eq!(save_baseline(&mut db, &before, &scopes()), 1);

    let after = vec![file("/proj/src/m.py", T0 + 5_000_000_000, V2)];
    let changes = detect_changes(&db, &after, &scopes());

    assert_eq!(changes.modified, vec!["/proj/src/m.py".to_string()]);
    assert_eq!(changes.changed_blocks.len(), 1);
    assert_eq!(changes.changed_blocks[0].filename, "/proj/src/m.py");
    assert_eq!(changes.changed_blocks[0].checksums, vec![checksum_of(V1, "bar")]);
    assert_eq!(checksum_of(V1, "<module>"), checksum_of(V2, "<module>"));
    assert_eq!(checksum_of(V1, "foo"), checksum_of(V2, "foo"));
    assert_ne!(checksum_of(V1, "bar"), checksum_of(V2, "bar"));
}

#[test]
fn touched_file_is_not_reported() {
    let mut db = TestmonDatabase::new(":memory:").unwrap();
    save_baseline(&mut db, &vec![file("/proj/src/m.py", T0, V1)], &scopes());

    let touched = vec![file("/proj/src/m.py", T0 + 60_000_000_000, V1)];
    let changes = detect_changes(&db, &touched, &scopes());

    assert!(changes.modified.is_empty());
    assert!(changes.changed_blocks.is_empty());
}

#[test]
fn second_baseline_leaves_detection_empty() {
    let mut db = TestmonDatabase::new(":memory:").unwrap();
    let files = vec![
        file("/proj/a.py", T0, V1),
        file("/proj/b.py", T0 + 1, "x = 1\n"),
        file("/proj/broken.py", T0 + 2, "def foo("),
    ];
    assert_eq!(save_baseline(&mut db, &files, &scopes()), 2);
    assert_eq!(save_baseline(&mut db, &files, &scopes()), 2);
    let changes = detect_changes(&db, &files, &scopes());
    assert!(changes.modified.is_empty());
    assert!(changes.changed_blocks.is_empty());
    assert!(db.get_baseline_fingerprint("/proj/broken.py").is_none());
    assert_eq!(
        db.get_baseline_fingerprint("/proj/b.py").unwrap().checksums,
        calculate_fingerprint("/proj/b.py", "x = 1\n", 0).unwrap().checksums
    );
}

#[test]
fn only_the_test_that_ran_the_edited_function_is_affected() {
    let name = "/proj/src/m.py";
    let mut db = TestmonDatabase::new(":memory:").unwrap();
    let files = vec![file(name, T0, V1)];
    save_baseline(&mut db, &files, &scopes());

    let ran_foo = vec![FileCoverage { filename: name.to_string(), lines: vec![1, 2, 4] }];
    let ran_bar = vec![FileCoverage { filename: name.to_string(), lines: vec![1, 4, 5] }];
    let deps_t1 = process_coverage_data(&ran_foo, &files, "/proj", "/proj/tests/test_m.py", &scopes());
    let deps_t2 = process_coverage_data(&ran_bar, &files, "/proj", "/proj/tests/test_m.py", &scopes());
    assert_eq!(deps_t1.len(), 1);
    assert_eq!(deps_t1[0].checksums, vec![checksum_of(V1, "<module>"), checksum_of(V1, "foo")]);
    assert_eq!(deps_t2[0].checksums, vec![checksum_of(V1, "<module>"), checksum_of(V1, "bar")]);
    db.save_test_execution("T1", deps_t1, 1_000, false);
    db.save_test_execution("T2", deps_t2, 2_000, false);

    let edited = vec![file(name, T0 + 9_000_000_000, V2)];
    let changes = detect_changes(&db, &edited, &scopes());
    let affected = db.get_affected_tests(&changes.changed_blocks);
    assert_eq!(affected, vec!["T2".to_string()]);
}

#[test]
fn untracked_file_is_not_reported() {
    let db = TestmonDatabase::new(":memory:").unwrap();
    let changes = detect_changes(&db, &vec![file("/proj/new.py", T0, V1)], &scopes());
    assert!(changes.modified.is_empty());
    assert_eq!(check_file_changed(&db, &file("/proj/new.py", T0, V1)), Ok(None));
}

#[test]
fn modification_time_within_a_millisecond_counts_as_unchanged() {
    let mut db = TestmonDatabase::new(":memory:").unwrap();
    save_baseline(&mut db, &vec![file("/proj/m.py", T0, V1)], &scopes());
    assert_eq!(check_file_changed(&db, &file("/proj/m.py", T0 + 999_999, V2)), Ok(None));
    assert_eq!(check_file_changed(&db, &file("/proj/m.py", T0 - 999_999, V2)), Ok(None));
    assert_eq!(
        check_file_changed(&db, &file("/proj/m.py", T0 + 1_000_000, V2)),
        Ok(Some(vec![checksum_of(V1, "bar")]))
    );
    assert_eq!(
        check_file_changed(&db, &file("/proj/m.py", T0 - 1_000_000, V2)),
        Ok(Some(vec![checksum_of(V1, "bar")]))
    );
}

#[test]
fn file_that_no_longer_parses_is_an_error_for_one_file_and_skipped_in_a_run() {
    let mut db = TestmonDatabase::new(":memory:").unwrap();
    save_baseline(&mut db, &vec![file("/proj/m.py", T0, V1)], &scopes());
    let broken = file("/proj/m.py", T0 + 5_000_000_000, "def foo(");
    assert!(check_file_changed(&db, &broken).is_err());
    let changes = detect_changes(&db, &vec![broken], &scopes());
    assert!(changes.modified.is_empty());
}

#[test]
fn reordered_functions_are_reported_without_lost_checksums() {
    let swapped = "def bar():\n    return 2\n\ndef foo():\n    return 1\n";
    let mut db = TestmonDatabase::new(":memory:").unwrap();
    save_baseline(&mut db, &vec![file("/proj/m.py", T0, V1)], &scopes());
    let changes = detect_changes(&db, &vec![file("/proj/m.py", T0 + 5_000_000_000, swapped)], &scopes());
    assert_eq!(changes.modified, vec!["/proj/m.py".to_string()]);
    assert_eq!(changes.changed_blocks.len(), 1);
    assert_eq!(changes.changed_blocks[0].checksums, vec![checksum_of(V1, "<module>")]);
}

#[test]
fn comment_added_inside_a_body_changes_only_that_block() {
    let commented = "def foo():\n    return 1\n\ndef bar():\n    return 2  # two\n";
    let mut db = TestmonDatabase::new(":memory:").unwrap();
    save_baseline(&mut db, &vec![file("/proj/m.py", T0, V1)], &scopes());
    let changes = detect_changes(&db, &vec![file("/proj/m.py", T0 + 5_000_000_000, commented)], &scopes());
    assert_eq!(changes.changed_blocks[0].checksums, vec![checksum_of(V1, "bar")]);
}

#[test]
fn files_out_of_scope_are_neither_saved_nor_reported() {
    let mut db = TestmonDatabase::new(":memory:").unwrap();
    let files = vec![
        file("/proj/src/a.py", T0, V1),
        file("/proj/docs/b.py", T0, V1),
        file("/proj/src/notes.txt", T0, "x = 1\n"),
        file("/proj/srcx/c.py", T0, V1),
    ];
    let scope = vec!["/proj/src".to_string()];
    assert_eq!(save_baseline(&mut db, &files, &scope), 1);
    assert!(db.get_baseline_fingerprint("/proj/docs/b.py").is_none());
    assert!(db.get_baseline_fingerprint("/proj/srcx/c.py").is_none());

    let mut all = TestmonDatabase::new(":memory:").unwrap();
    assert_eq!(save_baseline(&mut all, &files, &vec!["/proj".to_string()]), 3);
    let edited: Vec<SourceFile> = files
        .iter()
        .map(|f| file(&f.filename, T0 + 5_000_000_000, V2))
        .collect();
    let changes = detect_changes(&all, &edited, &scope);
    assert_eq!(changes.modified, vec!["/proj/src/a.py".to_string()]);
}

#[test]
fn classification_follows_the_three_tiers() {
    let stored = calculate_fingerprint("/proj/m.py", V1, T0).unwrap();
    let current = calculate_fingerprint("/proj/m.py", V2, T0 + 5_000_000_000).unwrap();
    assert_eq!(classify_change(None, T0, &current.file_hash, Some(&current.checksums)), None);
    assert_eq!(
        classify_change(Some(&stored), T0 + 10, &current.file_hash, Some(&current.checksums)),
        None
    );
    assert_eq!(
        classify_change(Some(&stored), current.mtime, &stored.file_hash, Some(&current.checksums)),
        None
    );
    assert_eq!(
        classify_change(Some(&stored), current.mtime, &current.file_hash, Some(&stored.checksums)),
        None
    );
    assert_eq!(classify_change(Some(&stored), current.mtime, &current.file_hash, None), None);
    assert_eq!(
        classify_change(Some(&stored), current.mtime, &current.file_hash, Some(&current.checksums)),
        Some(vec![stored.checksums[2]])
    );
}
