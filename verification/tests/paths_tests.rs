use pytest_diff_core::paths::{
    bytes_equal, contains_part, ends_with, find_basename_start, occurs, source_extension,
    test_file_name, under, within_scope,
};
use pytest_diff_core::{is_pruned_dir, is_source_in_scope};

#[test]
fn hidden_and_cache_directories_are_pruned() {
    assert!(is_pruned_dir(".git"));
    assert!(is_pruned_dir("."));
    assert!(is_pruned_dir(".venv"));
    assert!(is_pruned_dir("__pycache__"));
    assert!(is_pruned_dir("node_modules"));
    assert!(!is_pruned_dir("src"));
    assert!(!is_pruned_dir("__pycache__2"));
    assert!(!is_pruned_dir("node_module"));
    assert!(!is_pruned_dir("a.b"));
    assert!(!is_pruned_dir(""));
}

#[test]
fn scope_is_matched_by_whole_components() {
    assert!(under(b"/proj/src/a.py", b"/proj/src"));
    assert!(under(b"/proj/src/a.py", b"/proj/src/"));
    assert!(under(b"/proj/src/a.py", b"/proj/src//"));
    assert!(under(b"/proj/src", b"/proj/src"));
    assert!(under(b"/proj/src/a.py", b"/"));
    assert!(under(b"/proj/src/a.py", b""));
    assert!(!under(b"/proj/src2/a.py", b"/proj/src"));
    assert!(!under(b"/proj/sr", b"/proj/src"));
    assert!(!under(b"/proj", b"/proj/src"));
    assert!(!under(b"relative/a.py", b"/"));
    assert!(under(b"", b""));
}

#[test]
fn scope_list_admits_what_lies_under_one_of_them() {
    let scopes = vec!["/a/b".to_string(), "/c".to_string()];
    assert!(within_scope(b"/a/b/x.py", &scopes));
    assert!(within_scope(b"/c/x.py", &scopes));
    assert!(!within_scope(b"/a/x.py", &scopes));
    assert!(!within_scope(b"/a/b/x.py", &vec![]));
    assert!(is_source_in_scope("/c/d/e.py", &scopes));
    assert!(!is_source_in_scope("/c/d/e.txt", &scopes));
    assert!(!is_source_in_scope("/d/e.py", &scopes));
}

#[test]
fn source_extension_is_read_from_the_last_component() {
    assert!(source_extension(b"a.py"));
    assert!(source_extension(b"/x/y/a.b.py"));
    assert!(source_extension(b"..py"));
    assert!(!source_extension(b".py"));
    assert!(!source_extension(b"/x/.py"));
    assert!(!source_extension(b"/x.py/a"));
    assert!(!source_extension(b"a.pyi"));
    assert!(!source_extension(b"a.PY"));
    assert!(!source_extension(b"py"));
    assert!(!source_extension(b""));
}

#[test]
fn test_files_are_known_by_segment_prefix_or_suffix() {
    assert!(test_file_name(b"/p/tests/a.py"));
    assert!(test_file_name(b"/p/test_a.py"));
    assert!(test_file_name(b"test_a.py"));
    assert!(test_file_name(b"/p/a_test.py"));
    assert!(!test_file_name(b"/p/a.py"));
    assert!(!test_file_name(b"/p/tests.py"));
    assert!(!test_file_name(b"/p/test/a.py"));
    assert!(!test_file_name(b"/p/test_dir/a.py"));
    assert!(!test_file_name(b"/p/latest_a.py"));
    assert!(!test_file_name(b"tests/a.py"));
}

#[test]
fn byte_helpers() {
    assert!(occurs(b"hello", b"ell", 1));
    assert!(!occurs(b"hello", b"ell", 2));
    assert!(!occurs(b"hello", b"lo", 4));
    assert!(occurs(b"hello", b"", 5));
    assert!(!occurs(b"hello", b"", 6));
    assert!(ends_with(b"hello", b"llo"));
    assert!(!ends_with(b"lo", b"llo"));
    assert!(contains_part(b"hello", b"lo"));
    assert!(contains_part(b"hello", b""));
    assert!(!contains_part(b"hello", b"ol"));
    assert!(bytes_equal(b"ab", b"ab"));
    assert!(!bytes_equal(b"ab", b"abc"));
    assert!(!bytes_equal(b"ab", b"ac"));
    assert_eq!(find_basename_start(b"/a/b.py"), 3);
    assert_eq!(find_basename_start(b"b.py"), 0);
    assert_eq!(find_basename_start(b"/a/"), 3);
}
