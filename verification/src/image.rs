use crate::database::{recorded_files, DatabaseView, TestRunView, TestmonDatabase};
use crate::framing::{byte_fields, unframe, unframe_bytes};
use crate::paths::{has_prefix, occurs};
use crate::records::{read_record, read_row, Flaw, RecordView, StoreRecord};
use crate::types::{EngineError, Fingerprint};
use vstd::prelude::*;
use vstd::slice::slice_subrange;
use vstd::string::StringSliceAdditionalSpecFns;

verus! {

/// The bytes with which a stored database begins.
pub open spec fn magic() -> Seq<u8> {
    "TESTMON1".spec_bytes()
}

/// Where the reading of a stored database stands: what has been read, and
/// the test row that was read last.
pub ghost struct LoadState {
    pub db: DatabaseView,
    pub current: Option<(Seq<char>, u64, bool)>,
}

/// The database for `path` that holds nothing.
pub open spec fn empty_database(path: Seq<char>) -> DatabaseView {
    DatabaseView { path, baseline: Map::empty(), tests: Map::empty() }
}

/// What one record adds to what has been read. A baseline row writes the
/// baseline of its file. A test row writes the outcome of its test and
/// keeps what is recorded of the test's files. A last-run row writes what
/// the test of the last test row ran of its file; before any test row it
/// has no place.
pub open spec fn load_step(state: LoadState, record: RecordView) -> Option<LoadState> {
    match record {
        RecordView::Baseline(fp) => Some(
            LoadState {
                db: DatabaseView {
                    path: state.db.path,
                    baseline: state.db.baseline.insert(fp.filename, fp.stored()),
                    tests: state.db.tests,
                },
                current: state.current,
            },
        ),
        RecordView::Test { test_name, duration, failed } => Some(
            LoadState {
                db: DatabaseView {
                    path: state.db.path,
                    baseline: state.db.baseline,
                    tests: state.db.tests.insert(
                        test_name,
                        TestRunView {
                            duration,
                            failed,
                            fingerprints: recorded_files(state.db, test_name),
                        },
                    ),
                },
                current: Some((test_name, duration, failed)),
            },
        ),
        RecordView::LastRun(fp) => match state.current {
            None => None,
            Some((test_name, duration, failed)) => Some(
                LoadState {
                    db: DatabaseView {
                        path: state.db.path,
                        baseline: state.db.baseline,
                        tests: state.db.tests.insert(
                            test_name,
                            TestRunView {
                                duration,
                                failed,
                                fingerprints: recorded_files(state.db, test_name).insert(
                                    fp.filename,
                                    fp.stored(),
                                ),
                            },
                        ),
                    },
                    current: state.current,
                },
            ),
        },
    }
}

/// What the first `n` rows store for the database at `path`, read in
/// order.
pub open spec fn load_rows(path: Seq<char>, rows: Seq<Seq<u8>>, n: int) -> Result<
    LoadState,
    Flaw,
>
    decreases n,
{
    if n <= 0 {
        Ok(LoadState { db: empty_database(path), current: None })
    } else {
        match load_rows(path, rows, n - 1) {
            Err(flaw) => Err(flaw),
            Ok(state) => match read_record(rows[n - 1]) {
                Err(flaw) => Err(flaw),
                Ok(record) => match load_step(state, record) {
                    Some(next) => Ok(next),
                    None => Err(Flaw::Shape),
                },
            },
        }
    }
}

/// The database for `path` that an image stores: the magic bytes, then the
/// rows framed.
pub open spec fn restored(path: Seq<char>, image: Seq<u8>) -> Result<DatabaseView, Flaw> {
    if !has_prefix(image, magic()) {
        Err(Flaw::Shape)
    } else {
        match unframe(image.subrange(magic().len() as int, image.len() as int)) {
            None => Err(Flaw::Shape),
            Some(rows) => match load_rows(path, rows, rows.len() as int) {
                Ok(state) => Ok(state.db),
                Err(flaw) => Err(flaw),
            },
        }
    }
}

/// Reading rows reads them in order.
pub proof fn lemma_load_rows_reads_prefix(
    path: Seq<char>,
    a: Seq<Seq<u8>>,
    b: Seq<Seq<u8>>,
    n: int,
)
    requires
        n <= a.len(),
        n <= b.len(),
        forall|i: int| 0 <= i < n ==> a[i] == b[i],
    ensures
        load_rows(path, a, n) == load_rows(path, b, n),
    decreases n,
{
    if n > 0 {
        lemma_load_rows_reads_prefix(path, a, b, n - 1);
    }
}

/// Once a flaw is met, it is what the reading ends with.
pub proof fn lemma_load_flaw_stays(path: Seq<char>, rows: Seq<Seq<u8>>, i: int, n: int)
    requires
        0 <= i <= n,
        load_rows(path, rows, i) is Err,
    ensures
        load_rows(path, rows, n) == load_rows(path, rows, i),
    decreases n,
{
    if i < n {
        lemma_load_flaw_stays(path, rows, i, n - 1);
    }
}

fn malformed() -> (error: EngineError)
    ensures
        error matches EngineError::Store(text) && text@ == "the store is malformed"@,
{
    EngineError::Store("the store is malformed".to_string())
}

/// Reads a stored database.
///
/// Fails with `EngineError::Invariant` exactly where the first flaw of the
/// image is a checksum blob whose length is no multiple of four, and with
/// `EngineError::Store` exactly where it is another flaw: the magic bytes
/// are missing, the bytes end inside a row or a cell, a row is malformed,
/// or a last-run row comes before any test row.
pub fn restore(path: &str, image: &[u8]) -> (result: Result<TestmonDatabase, EngineError>)
    ensures
        match result {
            Ok(db) => restored(path@, image@) == Ok::<DatabaseView, Flaw>(db@),
            Err(e) => match restored(path@, image@) {
                Ok(_) => false,
                Err(Flaw::Blob) => e is Invariant,
                Err(Flaw::Shape) => e is Store,
            },
        },
{
    let head: &[u8] = "TESTMON1".as_bytes();
    if !occurs(image, head, 0) {
        return Err(malformed());
    }
    let rows: Vec<Vec<u8>> = match unframe_bytes(slice_subrange(image, head.len(), image.len())) {
        Ok(rows) => rows,
        Err(e) => {
            return Err(e);
        },
    };
    let ghost stored = byte_fields(rows@);
    let mut db: TestmonDatabase = match TestmonDatabase::new(path) {
        Ok(db) => db,
        Err(e) => {
            return Err(e);
        },
    };
    let mut current: Option<(String, u64, bool)> = None;
    let mut i: usize = 0;
    assert(db@ == empty_database(path@));
    while i < rows.len()
        invariant
            i <= rows@.len(),
            stored == byte_fields(rows@),
            restored(path@, image@) == match load_rows(path@, stored, stored.len() as int) {
                Ok(state) => Ok::<DatabaseView, Flaw>(state.db),
                Err(flaw) => Err(flaw),
            },
            load_rows(path@, stored, i as int) == Ok::<LoadState, Flaw>(
                LoadState {
                    db: db@,
                    current: match current {
                        Some((name, duration, failed)) => Some((name@, duration, failed)),
                        None => None,
                    },
                },
            ),
        decreases rows.len() - i,
    {
        let ghost before = db@;
        assert(stored[i as int] == rows@[i as int]@);
        let record: StoreRecord = match read_row(rows[i].as_slice()) {
            Ok(record) => record,
            Err(e) => {
                proof {
                    lemma_load_flaw_stays(path@, stored, i + 1, stored.len() as int);
                }
                return Err(e);
            },
        };
        match record {
            StoreRecord::Baseline(fp) => {
                let ghost row = fp@;
                let mut batch: Vec<Fingerprint> = Vec::new();
                batch.push(fp);
                let ghost views = crate::database::fingerprint_views(batch@);
                assert(views[0] == row);
                assert(crate::database::with_files(before.baseline, views, 0) == before.baseline);
                db.save_baseline_fingerprints_batch(batch);
                assert(db@.baseline == before.baseline.insert(row.filename, row.stored()));
            },
            StoreRecord::Test { test_name, duration, failed } => {
                let none: Vec<Fingerprint> = Vec::new();
                assert(crate::database::with_files(
                    recorded_files(before, test_name@),
                    crate::database::fingerprint_views(none@),
                    0,
                ) == recorded_files(before, test_name@));
                db.save_test_execution(test_name.as_str(), none, duration, failed);
                current = Some((test_name, duration, failed));
            },
            StoreRecord::LastRun(fp) => {
                match &current {
                    None => {
                        proof {
                            lemma_load_flaw_stays(path@, stored, i + 1, stored.len() as int);
                        }
                        return Err(malformed());
                    },
                    Some((test_name, duration, failed)) => {
                        let ghost row = fp@;
                        let mut batch: Vec<Fingerprint> = Vec::new();
                        batch.push(fp);
                        let ghost views = crate::database::fingerprint_views(batch@);
                        assert(views[0] == row);
                        assert(crate::database::with_files(
                            recorded_files(before, test_name@),
                            views,
                            0,
                        ) == recorded_files(before, test_name@));
                        db.save_test_execution(test_name.as_str(), batch, *duration, *failed);
                    },
                }
            },
        }
        i += 1;
    }
    Ok(db)
}

} // verus!
