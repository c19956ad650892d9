use pytest_diff_core::{
    calculate_checksum, calculate_fingerprint, find_changed_checksums, parse_module, EngineError,
};

#[test]
fn test_calculate_fingerprint() {
    let path = "/tmp/example.py";
    let fingerprint = calculate_fingerprint(path, "def foo(): pass\n", 1_700_000_000_000_000_000)
        .unwrap();

    assert_eq!(fingerprint.filename, path);
    assert_eq!(fingerprint.checksums.len(), 2);
    assert!(!fingerprint.file_hash.is_empty());
    assert!(fingerprint.mtime > 0);
}

#[test]
fn test_fingerprint_hash_stability() {
    let source = "def add(a, b):\n    return a + b\n\n";
    let path = "/tmp/stable.py";

    let fp1 = calculate_fingerprint(path, source, 5).unwrap();
    let fp2 = calculate_fingerprint(path, source, 5).unwrap();

    assert_eq!(fp1.file_hash, fp2.file_hash);
    assert_eq!(fp1.checksums, fp2.checksums);
}

#[test]
fn checksum_is_crc32_read_as_signed() {
    assert_eq!(calculate_checksum("123456789"), -873187034);
    assert_eq!(calculate_checksum(""), 0);
    assert_eq!(calculate_checksum("a"), -390611389);
    assert_eq!(calculate_checksum("def foo(): pass"), crc32fast::hash(b"def foo(): pass") as i32);
}

#[test]
fn checksum_is_taken_over_utf8_bytes() {
    let text = "x = 'é'";
    assert_eq!(calculate_checksum(text), crc32fast::hash(text.as_bytes()) as i32);
    assert_ne!(calculate_checksum(text), calculate_checksum("x = 'e'"));
}

#[test]
fn file_hash_is_blake3_hex_of_the_bytes() {
    let empty = calculate_fingerprint("e.py", "", 0).unwrap();
    assert_eq!(
        empty.file_hash,
        "af1349b9f5f9a1a6a0404dea36dcc9499bcb25c9adc112b7cc9a93cae41f3262"
    );
    let source = "x = 1\n";
    let fp = calculate_fingerprint("x.py", source, 0).unwrap();
    assert_eq!(fp.file_hash, blake3::hash(source.as_bytes()).to_hex().to_string());
    assert_eq!(fp.file_hash.len(), 64);
    assert!(fp.file_hash.chars().all(|c| c.is_ascii_digit() || ('a'..='f').contains(&c)));
}

#[test]
fn fingerprint_holds_one_checksum_per_block() {
    let source = "import os\n\nclass A:\n    def f(self):\n        return 1\n\ndef g():\n    pass\n";
    let fp = calculate_fingerprint("/p/a.py", source, 42).unwrap();
    let blocks = fp.blocks.clone().unwrap();
    assert_eq!(blocks, parse_module(source).unwrap());
    assert_eq!(fp.checksums.len(), 4);
    assert_eq!(fp.checksums, blocks.iter().map(|b| b.checksum).collect::<Vec<i32>>());
    assert_eq!(fp.mtime, 42);
    assert_eq!(fp.filename, "/p/a.py");
}

#[test]
fn fingerprint_of_unparsable_source_is_a_parse_error() {
    let result = calculate_fingerprint("/p/bad.py", "def foo(", 1);
    assert!(matches!(result, Err(EngineError::Parse(_))));
    let message = match result {
        Err(e) => e.message().clone(),
        Ok(_) => String::new(),
    };
    assert!(!message.is_empty());
}

#[test]
fn changed_checksums_are_the_old_ones_that_are_gone() {
    assert_eq!(find_changed_checksums(&[1, 2, 3], &[1, 9, 3]), vec![2]);
    assert_eq!(find_changed_checksums(&[1, 2, 3], &[3, 2, 1]), Vec::<i32>::new());
    assert_eq!(find_changed_checksums(&[1, 2, 3], &[]), vec![1, 2, 3]);
    assert_eq!(find_changed_checksums(&[], &[1, 2]), Vec::<i32>::new());
    assert_eq!(find_changed_checksums(&[5, 5, 6], &[6]), vec![5, 5]);
    assert_eq!(find_changed_checksums(&[1, 2], &[1, 2, 3]), Vec::<i32>::new());
}
