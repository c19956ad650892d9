use pytest_diff_core::framing::{frame_fields, unframe_bytes};
use pytest_diff_core::records::{read_row, write_row, StoreRecord};
use pytest_diff_core::{
    decode_checksums, encode_checksums, restore, ChangedBlocks, EngineError, Fingerprint,
    TestmonDatabase,
};

fn fingerprint(name: &str, checksums: Vec<i32>) -> Fingerprint {
    Fingerprint {
        filename: name.to_string(),
        checksums,
        file_hash: format!("hash of {}", name),
        mtime: 1_700_000_000_123_456_789,
        blocks: None,
    }
}

fn image_of(rows: Vec<Vec<u8>>) -> Vec<u8> {
    let mut image = b"TESTMON1".to_vec();
    image.extend(frame_fields(&rows).unwrap());
    image
}

#[test]
fn checksum_blob_is_little_endian_twos_complement() {
    assert_eq!(encode_checksums(&[]), Vec::<u8>::new());
    assert_eq!(encode_checksums(&[1]), vec![1, 0, 0, 0]);
    assert_eq!(
        encode_checksums(&[1, -1, i32::MIN, i32::MAX, 0x0102_0304]),
        vec![1, 0, 0, 0, 255, 255, 255, 255, 0, 0, 0, 128, 255, 255, 255, 127, 4, 3, 2, 1]
    );
    assert_eq!(decode_checksums(&[4, 3, 2, 1, 254, 255, 255, 255]), Ok(vec![0x0102_0304, -2]));
    assert_eq!(decode_checksums(&[]), Ok(vec![]));
}

#[test]
fn checksum_blob_round_trips() {
    let lists: Vec<Vec<i32>> = vec![vec![], vec![0], vec![-873187034, 5, i32::MIN, i32::MAX, -1]];
    for list in lists {
        assert_eq!(decode_checksums(&encode_checksums(&list)), Ok(list.clone()));
        assert_eq!(encode_checksums(&list).len(), 4 * list.len());
    }
}

#[test]
fn blob_whose_length_is_no_multiple_of_four_is_an_invariant_error() {
    for length in [1usize, 2, 3, 5, 6, 7, 9] {
        let blob = vec![0u8; length];
        assert!(matches!(decode_checksums(&blob), Err(EngineError::Invariant(_))));
    }
}

#[test]
fn fields_are_framed_with_their_lengths() {
    let fields = vec![b"ab".to_vec(), vec![], b"xyz".to_vec()];
    let bytes = frame_fields(&fields).unwrap();
    assert_eq!(bytes, vec![2, 0, 0, 0, b'a', b'b', 0, 0, 0, 0, 3, 0, 0, 0, b'x', b'y', b'z']);
    assert_eq!(unframe_bytes(&bytes), Ok(fields));
    assert_eq!(frame_fields(&vec![]), Ok(vec![]));
    assert_eq!(unframe_bytes(&[]), Ok(vec![]));
}

#[test]
fn bytes_that_end_inside_a_field_are_a_store_error() {
    assert!(matches!(unframe_bytes(&[1, 0, 0]), Err(EngineError::Store(_))));
    assert!(matches!(unframe_bytes(&[2, 0, 0, 0, 7]), Err(EngineError::Store(_))));
    assert!(matches!(unframe_bytes(&[0, 0, 0, 0, 1]), Err(EngineError::Store(_))));
    assert!(matches!(unframe_bytes(&[255, 255, 255, 255]), Err(EngineError::Store(_))));
}

#[test]
fn rows_round_trip() {
    let records = vec![
        StoreRecord::Baseline(fingerprint("/p/a.py", vec![1, -2, 3])),
        StoreRecord::LastRun(fingerprint("/p/é.py", vec![])),
        StoreRecord::Test { test_name: "tests/test_a.py::test_x".to_string(), duration: 17, failed: true },
        StoreRecord::Test { test_name: String::new(), duration: u64::MAX, failed: false },
    ];
    for record in records {
        let row = write_row(&record).unwrap();
        assert_eq!(read_row(&row), Ok(record));
    }
}

#[test]
fn row_layout_is_tag_then_cells() {
    let row = write_row(&StoreRecord::Test { test_name: "t".to_string(), duration: 258, failed: true })
        .unwrap();
    assert_eq!(
        unframe_bytes(&row),
        Ok(vec![b"T".to_vec(), b"t".to_vec(), vec![2, 1, 0, 0, 0, 0, 0, 0], vec![1]])
    );
    let mut fp = fingerprint("a.py", vec![7]);
    fp.mtime = 1;
    fp.blocks = Some(vec![]);
    let row = write_row(&StoreRecord::Baseline(fp)).unwrap();
    assert_eq!(
        unframe_bytes(&row),
        Ok(vec![
            b"B".to_vec(),
            b"a.py".to_vec(),
            b"hash of a.py".to_vec(),
            vec![1, 0, 0, 0, 0, 0, 0, 0],
            vec![7, 0, 0, 0]
        ])
    );
}

#[test]
fn malformed_rows_are_store_errors() {
    let row = |cells: Vec<Vec<u8>>| frame_fields(&cells).unwrap();
    let good = vec![b"B".to_vec(), b"a.py".to_vec(), b"h".to_vec(), vec![0; 8], vec![0; 4]];
    assert!(read_row(&row(good.clone())).is_ok());
    let mut unknown_tag = good.clone();
    unknown_tag[0] = b"X".to_vec();
    let mut long_tag = good.clone();
    long_tag[0] = b"BB".to_vec();
    let mut bad_name = good.clone();
    bad_name[1] = vec![0xff, 0xfe];
    let mut bad_hash = good.clone();
    bad_hash[2] = vec![0xc0];
    let mut short_time = good.clone();
    short_time[3] = vec![0; 7];
    let mut extra = good.clone();
    extra.push(vec![]);
    let missing = good[..4].to_vec();
    for cells in [unknown_tag, long_tag, bad_name, bad_hash, short_time, extra, missing, vec![]] {
        assert!(matches!(read_row(&row(cells)), Err(EngineError::Store(_))));
    }
    let test_row = vec![b"T".to_vec(), b"t".to_vec(), vec![0; 8], vec![1]];
    assert!(read_row(&row(test_row.clone())).is_ok());
    let mut bad_flag = test_row.clone();
    bad_flag[3] = vec![2];
    let mut empty_flag = test_row.clone();
    empty_flag[3] = vec![];
    let mut long_duration = test_row.clone();
    long_duration[2] = vec![0; 9];
    for cells in [bad_flag, empty_flag, long_duration] {
        assert!(matches!(read_row(&row(cells)), Err(EngineError::Store(_))));
    }
    assert!(matches!(read_row(&[9, 0, 0, 0]), Err(EngineError::Store(_))));
}

#[test]
fn row_with_a_bad_blob_is_an_invariant_error() {
    let cells = vec![b"L".to_vec(), b"a.py".to_vec(), b"h".to_vec(), vec![0; 8], vec![0; 6]];
    assert!(matches!(read_row(&frame_fields(&cells).unwrap()), Err(EngineError::Invariant(_))));
}

#[test]
fn snapshot_restores_to_the_same_store() {
    let mut db = TestmonDatabase::new("/tmp/.testmondata").unwrap();
    db.save_baseline_fingerprints_batch(vec![
        fingerprint("/p/a.py", vec![1, 2]),
        fingerprint("/p/b.py", vec![]),
    ]);
    db.save_test_execution("t1", vec![fingerprint("/p/a.py", vec![2]), fingerprint("/p/b.py", vec![9])], 5, false);
    db.save_test_execution("t2", vec![], 6, true);
    db.save_test_execution("t3", vec![fingerprint("/p/a.py", vec![1])], 7, true);

    let image = db.snapshot().unwrap();
    assert_eq!(&image[..8], b"TESTMON1");
    let back = restore("/elsewhere", &image).unwrap();
    assert_eq!(back.db_path(), "/elsewhere");
    assert_eq!(back.get_baseline_fingerprint("/p/a.py"), db.get_baseline_fingerprint("/p/a.py"));
    assert_eq!(back.get_baseline_fingerprint("/p/b.py"), Some(fingerprint("/p/b.py", vec![])));
    assert_eq!(back.get_baseline_fingerprint("/p/c.py"), None);
    let lost = |name: &str, checksums: Vec<i32>| vec![ChangedBlocks { filename: name.to_string(), checksums }];
    assert_eq!(back.get_affected_tests(&lost("/p/a.py", vec![2])), vec!["t1".to_string()]);
    assert_eq!(back.get_affected_tests(&lost("/p/a.py", vec![1])), vec!["t3".to_string()]);
    assert_eq!(back.get_affected_tests(&lost("/p/b.py", vec![9])), vec!["t1".to_string()]);
    assert_eq!(back.snapshot().unwrap(), image);
}

#[test]
fn empty_store_is_the_magic_bytes_alone() {
    let db = TestmonDatabase::new(":memory:").unwrap();
    assert_eq!(db.snapshot().unwrap(), b"TESTMON1".to_vec());
    let back = restore(":memory:", b"TESTMON1").unwrap();
    assert!(back.get_baseline_fingerprint("a.py").is_none());
}

#[test]
fn later_rows_overwrite_earlier_ones() {
    let rows = vec![
        write_row(&StoreRecord::Baseline(fingerprint("a.py", vec![1]))).unwrap(),
        write_row(&StoreRecord::Test { test_name: "t".to_string(), duration: 1, failed: false }).unwrap(),
        write_row(&StoreRecord::LastRun(fingerprint("a.py", vec![1]))).unwrap(),
        write_row(&StoreRecord::Baseline(fingerprint("a.py", vec![2]))).unwrap(),
        write_row(&StoreRecord::LastRun(fingerprint("a.py", vec![3]))).unwrap(),
    ];
    let db = restore("p", &image_of(rows)).unwrap();
    assert_eq!(db.get_baseline_fingerprint("a.py").unwrap().checksums, vec![2]);
    let lost = |checksums: Vec<i32>| vec![ChangedBlocks { filename: "a.py".to_string(), checksums }];
    assert!(db.get_affected_tests(&lost(vec![1])).is_empty());
    assert_eq!(db.get_affected_tests(&lost(vec![3])), vec!["t".to_string()]);
}

#[test]
fn flawed_images_are_refused() {
    assert!(matches!(restore("p", b""), Err(EngineError::Store(_))));
    assert!(matches!(restore("p", b"TESTMON"), Err(EngineError::Store(_))));
    assert!(matches!(restore("p", b"TESTMON2"), Err(EngineError::Store(_))));
    assert!(matches!(restore("p", b"TESTMON1\x01"), Err(EngineError::Store(_))));
    assert!(matches!(restore("p", b"TESTMON1\x05\x00\x00\x00ab"), Err(EngineError::Store(_))));

    let orphan = vec![write_row(&StoreRecord::LastRun(fingerprint("a.py", vec![1]))).unwrap()];
    assert!(matches!(restore("p", &image_of(orphan)), Err(EngineError::Store(_))));

    let junk = vec![b"junk".to_vec()];
    assert!(matches!(restore("p", &image_of(junk)), Err(EngineError::Store(_))));

    let bad_blob = frame_fields(&vec![b"B".to_vec(), b"a.py".to_vec(), b"h".to_vec(), vec![0; 8], vec![0; 3]])
        .unwrap();
    assert!(matches!(restore("p", &image_of(vec![bad_blob.clone()])), Err(EngineError::Invariant(_))));

    let first_flaw_counts = vec![b"junk".to_vec(), bad_blob];
    assert!(matches!(restore("p", &image_of(first_flaw_counts)), Err(EngineError::Store(_))));
}
