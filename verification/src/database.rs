use crate::fingerprint::has_checksum;
use crate::framing::{byte_fields, fields_fit, frame_fields, framed_fields_unframe};
use crate::image::{
    empty_database, lemma_load_rows_reads_prefix, load_rows, magic, restored, LoadState,
};
use crate::records::{
    record_cells, record_row, stored_record_reads_back, write_baseline_row, write_last_run_row,
    write_test_row, Flaw, RecordView,
};
use crate::table::{
    all_stored, distinct_files, file_map, find_file, lemma_file_map_at, lemma_file_map_grows,
    same_text, stored_copy, upsert_file,
};
use crate::types::{
    changed_views, texts, ChangedBlocks, EngineError, Fingerprint, FingerprintView, TestExecution,
};
use vstd::prelude::*;

verus! {

/// What the store holds of one test: its last outcome and, for each file it
/// depended on, the fingerprint of the blocks it ran.
pub ghost struct TestRunView {
    pub duration: u64,
    pub failed: bool,
    pub fingerprints: Map<Seq<char>, FingerprintView>,
}

/// What the store holds: the baseline fingerprint of each file, and the
/// last run of each test.
pub ghost struct DatabaseView {
    pub path: Seq<char>,
    pub baseline: Map<Seq<char>, FingerprintView>,
    pub tests: Map<Seq<char>, TestRunView>,
}

/// The map after the first `n` fingerprints have been written to it, each
/// without its block list and over what was recorded of its file.
pub open spec fn with_files(
    map: Map<Seq<char>, FingerprintView>,
    fps: Seq<FingerprintView>,
    n: int,
) -> Map<Seq<char>, FingerprintView>
    decreases n,
{
    if n <= 0 {
        map
    } else {
        with_files(map, fps, n - 1).insert(fps[n - 1].filename, fps[n - 1].stored())
    }
}

/// The views of a list of fingerprints.
pub open spec fn fingerprint_views(fps: Seq<Fingerprint>) -> Seq<FingerprintView> {
    fps.map_values(|fp: Fingerprint| fp@)
}

/// Two checksum lists have a checksum in common.
pub open spec fn shares_checksum(a: Seq<i32>, b: Seq<i32>) -> bool {
    exists|i: int| 0 <= i < a.len() && b.contains(#[trigger] a[i])
}

/// The test recorded, for one of the changed files, one of the checksums
/// that the file has lost.
pub open spec fn run_affected(run: TestRunView, changed: Seq<(Seq<char>, Seq<i32>)>) -> bool {
    exists|k: int|
        0 <= k < changed.len() && run.fingerprints.contains_key((#[trigger] changed[k]).0)
            && shares_checksum(changed[k].1, run.fingerprints[changed[k].0].checksums)
}

spec fn has_test(rows: Seq<TestExecution>, name: Seq<char>) -> bool {
    exists|i: int| 0 <= i < rows.len() && (#[trigger] rows[i]).test_name@ == name
}

spec fn distinct_tests(rows: Seq<TestExecution>) -> bool {
    forall|i: int, j: int|
        0 <= i < j < rows.len() ==> (#[trigger] rows[i]).test_name@ != (
        #[trigger] rows[j]).test_name@
}

spec fn test_index(rows: Seq<TestExecution>, name: Seq<char>) -> int {
    choose|i: int| 0 <= i < rows.len() && (#[trigger] rows[i]).test_name@ == name
}

spec fn run_view(row: TestExecution) -> TestRunView {
    TestRunView {
        duration: row.duration,
        failed: row.failed,
        fingerprints: file_map(row.fingerprints@),
    }
}

spec fn test_map(rows: Seq<TestExecution>) -> Map<Seq<char>, TestRunView> {
    Map::new(
        |name: Seq<char>| has_test(rows, name),
        |name: Seq<char>| run_view(rows[test_index(rows, name)]),
    )
}

proof fn lemma_test_map_at(rows: Seq<TestExecution>, i: int)
    requires
        distinct_tests(rows),
        0 <= i < rows.len(),
    ensures
        test_map(rows).dom().contains(rows[i].test_name@),
        test_map(rows)[rows[i].test_name@] == run_view(rows[i]),
{
    let name = rows[i].test_name@;
    assert(has_test(rows, name));
    let j = test_index(rows, name);
    assert(i == j) by {
        if i < j {
            assert(rows[i].test_name@ != rows[j].test_name@);
        } else if j < i {
            assert(rows[j].test_name@ != rows[i].test_name@);
        }
    }
}

/// The map of the first `i + 1` tests is the map of the first `i` with
/// the test at `i` written to it.
proof fn lemma_test_map_grows(rows: Seq<TestExecution>, i: int)
    requires
        distinct_tests(rows),
        0 <= i < rows.len(),
    ensures
        test_map(rows.take(i + 1)) == test_map(rows.take(i)).insert(
            rows[i].test_name@,
            run_view(rows[i]),
        ),
        !test_map(rows.take(i)).contains_key(rows[i].test_name@),
{
    let shorter = rows.take(i);
    let longer = rows.take(i + 1);
    let name = rows[i].test_name@;
    assert(distinct_tests(longer));
    assert(distinct_tests(shorter));
    assert(!has_test(shorter, name)) by {
        if has_test(shorter, name) {
            let k = test_index(shorter, name);
            assert(rows[k].test_name@ != rows[i].test_name@);
        }
    }
    assert forall|n: Seq<char>| has_test(longer, n) == (has_test(shorter, n) || n == name) by {
        if has_test(longer, n) && n != name {
            let k = test_index(longer, n);
            assert(shorter[k].test_name@ == n);
        }
        if has_test(shorter, n) {
            let k = test_index(shorter, n);
            assert(longer[k].test_name@ == n);
        }
        if n == name {
            assert(longer[i].test_name@ == n);
        }
    }
    assert forall|n: Seq<char>| has_test(longer, n) implies #[trigger] test_map(longer)[n]
        == test_map(shorter).insert(name, run_view(rows[i]))[n] by {
        let k = test_index(longer, n);
        lemma_test_map_at(longer, k);
        if n != name {
            assert(shorter[k].test_name@ == n);
            lemma_test_map_at(shorter, k);
        }
    }
    assert(test_map(longer) =~= test_map(shorter).insert(name, run_view(rows[i])));
}

fn find_test(rows: &Vec<TestExecution>, name: &str) -> (found: Option<usize>)
    ensures
        match found {
            Some(i) => i < rows@.len() && rows@[i as int].test_name@ == name@,
            None => !has_test(rows@, name@),
        },
{
    let mut i: usize = 0;
    while i < rows.len()
        invariant
            i <= rows@.len(),
            forall|k: int| 0 <= k < i ==> (#[trigger] rows@[k]).test_name@ != name@,
        decreases rows.len() - i,
    {
        if same_text(rows[i].test_name.as_str(), name) {
            return Some(i);
        }
        i += 1;
    }
    None
}

/// Writes the fingerprints to the rows, each without its block list.
fn upsert_files(rows: &mut Vec<Fingerprint>, fps: &Vec<Fingerprint>)
    requires
        distinct_files(old(rows)@),
        all_stored(old(rows)@),
    ensures
        distinct_files(final(rows)@),
        all_stored(final(rows)@),
        file_map(final(rows)@) == with_files(
            file_map(old(rows)@),
            fingerprint_views(fps@),
            fps@.len() as int,
        ),
{
    let mut i: usize = 0;
    while i < fps.len()
        invariant
            i <= fps@.len(),
            distinct_files(rows@),
            all_stored(rows@),
            file_map(rows@) == with_files(file_map(old(rows)@), fingerprint_views(fps@), i as int),
        decreases fps.len() - i,
    {
        upsert_file(rows, stored_copy(&fps[i]));
        i += 1;
    }
}

fn lists_share(a: &Vec<i32>, b: &Vec<i32>) -> (found: bool)
    ensures
        found == shares_checksum(a@, b@),
{
    let mut i: usize = 0;
    while i < a.len()
        invariant
            i <= a@.len(),
            forall|k: int| 0 <= k < i ==> !b@.contains(#[trigger] a@[k]),
        decreases a.len() - i,
    {
        if has_checksum(b.as_slice(), a[i]) {
            return true;
        }
        i += 1;
    }
    false
}

fn is_affected(row: &TestExecution, changed: &Vec<ChangedBlocks>) -> (found: bool)
    requires
        distinct_files(row.fingerprints@),
    ensures
        found == run_affected(run_view(*row), changed_views(changed@)),
{
    let ghost views = changed_views(changed@);
    let mut k: usize = 0;
    while k < changed.len()
        invariant
            k <= changed@.len(),
            views == changed_views(changed@),
            distinct_files(row.fingerprints@),
            forall|j: int|
                0 <= j < k ==> !(run_view(*row).fingerprints.contains_key((#[trigger] views[j]).0)
                    && shares_checksum(
                    views[j].1,
                    run_view(*row).fingerprints[views[j].0].checksums,
                )),
        decreases changed.len() - k,
    {
        assert(views[k as int] == changed@[k as int]@);
        match find_file(&row.fingerprints, changed[k].filename.as_str()) {
            Some(i) => {
                proof {
                    lemma_file_map_at(row.fingerprints@, i as int);
                }
                if lists_share(&changed[k].checksums, &row.fingerprints[i].checksums) {
                    return true;
                }
            },
            None => {},
        }
        k += 1;
    }
    false
}

/// What is recorded of the files of a test; nothing for a test that has
/// not been recorded.
pub open spec fn recorded_files(db: DatabaseView, test_name: Seq<char>) -> Map<
    Seq<char>,
    FingerprintView,
> {
    if db.tests.contains_key(test_name) {
        db.tests[test_name].fingerprints
    } else {
        Map::empty()
    }
}

/// The row of a record can be stored: each of its cells and the row itself
/// are short enough for their lengths to be stored.
pub open spec fn row_fits(record: RecordView) -> bool {
    fields_fit(record_cells(record)) && record_row(record).len() <= u32::MAX
}

/// The database can be stored: the row of every baseline, of every test and
/// of everything recorded of a test's files can be.
pub open spec fn storable(db: DatabaseView) -> bool {
    &&& forall|name: Seq<char>|
        db.baseline.contains_key(name) ==> row_fits(
            RecordView::Baseline(#[trigger] db.baseline[name]),
        )
    &&& forall|test_name: Seq<char>|
        db.tests.contains_key(test_name) ==> row_fits(
            RecordView::Test {
                test_name,
                duration: (#[trigger] db.tests[test_name]).duration,
                failed: db.tests[test_name].failed,
            },
        )
    &&& forall|test_name: Seq<char>, name: Seq<char>|
        db.tests.contains_key(test_name) && db.tests[test_name].fingerprints.contains_key(name)
            ==> row_fits(
            RecordView::LastRun(#[trigger] db.tests[test_name].fingerprints[name]),
        )
}

/// The store of the engine, held in memory: a baseline fingerprint per
/// file, and per test its last outcome with the fingerprints of the files it
/// depended on.
pub struct TestmonDatabase {
    db_path: String,
    baseline: Vec<Fingerprint>,
    tests: Vec<TestExecution>,
}

impl View for TestmonDatabase {
    type V = DatabaseView;

    closed spec fn view(&self) -> DatabaseView {
        DatabaseView {
            path: self.db_path@,
            baseline: file_map(self.baseline@),
            tests: test_map(self.tests@),
        }
    }
}

impl TestmonDatabase {
    #[verifier::type_invariant]
    spec fn well_formed(self) -> bool {
        &&& distinct_files(self.baseline@)
        &&& all_stored(self.baseline@)
        &&& distinct_tests(self.tests@)
        &&& forall|i: int|
            0 <= i < self.tests@.len() ==> distinct_files((#[trigger] self.tests@[i]).fingerprints@)
                && all_stored(self.tests@[i].fingerprints@)
    }

    /// An empty store for `path`.
    pub fn new(path: &str) -> (result: Result<TestmonDatabase, EngineError>)
        ensures
            result matches Ok(db) && db@.path == path@ && db@.baseline == Map::<
                Seq<char>,
                FingerprintView,
            >::empty() && db@.tests == Map::<Seq<char>, TestRunView>::empty(),
    {
        let db = TestmonDatabase {
            db_path: path.to_string(),
            baseline: Vec::new(),
            tests: Vec::new(),
        };
        assert(db@.baseline =~= Map::<Seq<char>, FingerprintView>::empty());
        assert(db@.tests =~= Map::<Seq<char>, TestRunView>::empty());
        Ok(db)
    }

    /// The path the store was made for.
    pub fn db_path(&self) -> (path: &String)
        ensures
            path@ == self@.path,
    {
        &self.db_path
    }

    /// Writes the baseline fingerprint of each file, over what was recorded
    /// of it, and returns how many were written.
    pub fn save_baseline_fingerprints_batch(&mut self, fps: Vec<Fingerprint>) -> (count: usize)
        ensures
            count == fps@.len(),
            final(self)@.path == old(self)@.path,
            final(self)@.tests == old(self)@.tests,
            final(self)@.baseline == with_files(
                old(self)@.baseline,
                fingerprint_views(fps@),
                fps@.len() as int,
            ),
    {
        proof {
            use_type_invariant(&*self);
        }
        let mut baseline: Vec<Fingerprint> = Vec::new();
        std::mem::swap(&mut baseline, &mut self.baseline);
        upsert_files(&mut baseline, &fps);
        self.baseline = baseline;
        fps.len()
    }

    /// The baseline fingerprint of a file, if one is recorded.
    pub fn get_baseline_fingerprint(&self, filename: &str) -> (found: Option<Fingerprint>)
        ensures
            match found {
                Some(fp) => self@.baseline.contains_key(filename@) && fp@
                    == self@.baseline[filename@],
                None => !self@.baseline.contains_key(filename@),
            },
    {
        proof {
            use_type_invariant(self);
        }
        match find_file(&self.baseline, filename) {
            Some(i) => {
                proof {
                    lemma_file_map_at(self.baseline@, i as int);
                }
                Some(self.baseline[i].duplicate())
            },
            None => None,
        }
    }

    /// Records the outcome of a test and, for each fingerprint, what the
    /// test ran of that file, over what was recorded of the test and the
    /// file.
    pub fn save_test_execution(
        &mut self,
        test_name: &str,
        fingerprints: Vec<Fingerprint>,
        duration: u64,
        failed: bool,
    )
        ensures
            final(self)@.path == old(self)@.path,
            final(self)@.baseline == old(self)@.baseline,
            final(self)@.tests == old(self)@.tests.insert(
                test_name@,
                TestRunView {
                    duration,
                    failed,
                    fingerprints: with_files(
                        recorded_files(old(self)@, test_name@),
                        fingerprint_views(fingerprints@),
                        fingerprints@.len() as int,
                    ),
                },
            ),
    {
        proof {
            use_type_invariant(&*self);
        }
        let mut tests: Vec<TestExecution> = Vec::new();
        std::mem::swap(&mut tests, &mut self.tests);
        let ghost before = tests@;
        let mut files: Vec<Fingerprint> = Vec::new();
        match find_test(&tests, test_name) {
            Some(i) => {
                proof {
                    lemma_test_map_at(before, i as int);
                }
                let row: TestExecution = tests.remove(i);
                files = row.fingerprints;
                assert(forall|k: int| 0 <= k < i ==> tests@[k] == before[k]);
                assert(forall|k: int| i <= k < tests@.len() ==> tests@[k] == before[k + 1]);
            },
            None => {
                assert(file_map(files@) =~= Map::<Seq<char>, FingerprintView>::empty());
            },
        }
        let ghost kept = tests@;
        assert(file_map(files@) == recorded_files(old(self)@, test_name@));
        assert(!has_test(kept, test_name@)) by {
            if has_test(kept, test_name@) {
                let k = test_index(kept, test_name@);
                if kept.len() == before.len() {
                    assert(before[k].test_name@ == test_name@);
                }
            }
        }
        upsert_files(&mut files, &fingerprints);
        let row = TestExecution {
            test_name: test_name.to_string(),
            duration,
            failed,
            fingerprints: files,
        };
        tests.push(row);
        proof {
            let after = tests@;
            let name = test_name@;
            let last = after.len() - 1;
            assert(after[last] == row);
            assert(forall|k: int| 0 <= k < kept.len() ==> after[k] == kept[k]);
            assert(distinct_tests(after));
            assert forall|n: Seq<char>| has_test(after, n) == (has_test(before, n) || n
                == name) by {
                if has_test(after, n) && n != name {
                    let k = test_index(after, n);
                    assert(kept[k].test_name@ == n);
                    if kept.len() == before.len() {
                        assert(before[k].test_name@ == n);
                    } else {
                        assert(before[k].test_name@ == n || before[k + 1].test_name@ == n);
                    }
                }
                if has_test(before, n) && n != name {
                    let k = test_index(before, n);
                    if kept.len() == before.len() {
                        assert(after[k].test_name@ == n);
                    } else {
                        assert(after[k].test_name@ == n || after[k - 1].test_name@ == n);
                    }
                }
                if n == name {
                    assert(after[last].test_name@ == n);
                }
            }
            assert forall|n: Seq<char>| has_test(after, n) implies #[trigger] test_map(after)[n]
                == test_map(before).insert(name, run_view(row))[n] by {
                let k = test_index(after, n);
                lemma_test_map_at(after, k);
                if n != name {
                    assert(k < kept.len());
                    if kept.len() == before.len() {
                        lemma_test_map_at(before, k);
                    } else if before[k].test_name@ == n {
                        lemma_test_map_at(before, k);
                    } else {
                        lemma_test_map_at(before, k + 1);
                    }
                }
            }
            assert(test_map(after) =~= test_map(before).insert(name, run_view(row)));
        }
        self.tests = tests;
    }

    /// The tests that recorded, for one of the changed files, one of the
    /// checksums that the file has lost: each of them once.
    pub fn get_affected_tests(&self, changed_blocks: &Vec<ChangedBlocks>) -> (affected: Vec<String>)
        ensures
            texts(affected@).no_duplicates(),
            forall|name: Seq<char>|
                texts(affected@).contains(name) <==> self@.tests.contains_key(name)
                    && run_affected(self@.tests[name], changed_views(changed_blocks@)),
    {
        proof {
            use_type_invariant(self);
        }
        let mut affected: Vec<String> = Vec::new();
        let ghost mut picked: Seq<int> = Seq::empty();
        let mut i: usize = 0;
        while i < self.tests.len()
            invariant
                i <= self.tests@.len(),
                distinct_tests(self.tests@),
                forall|k: int|
                    0 <= k < self.tests@.len() ==> distinct_files(
                        (#[trigger] self.tests@[k]).fingerprints@,
                    ),
                picked.len() == affected@.len(),
                forall|j: int|
                    0 <= j < picked.len() ==> 0 <= #[trigger] picked[j] < i && affected@[j]@
                        == self.tests@[picked[j]].test_name@ && run_affected(
                        run_view(self.tests@[picked[j]]),
                        changed_views(changed_blocks@),
                    ),
                forall|j: int, l: int| 0 <= j < l < picked.len() ==> picked[j] < picked[l],
                forall|k: int|
                    0 <= k < i && run_affected(
                        run_view(#[trigger] self.tests@[k]),
                        changed_views(changed_blocks@),
                    )
                        ==> picked.contains(k),
            decreases self.tests.len() - i,
        {
            if is_affected(&self.tests[i], changed_blocks) {
                affected.push(self.tests[i].test_name.clone());
                proof {
                    let earlier = picked;
                    picked = picked.push(i as int);
                    assert forall|k: int|
                        0 <= k < i + 1 && run_affected(
                            run_view(#[trigger] self.tests@[k]),
                            changed_views(changed_blocks@),
                        ) implies picked.contains(k) by {
                        if k < i {
                            let j = choose|j: int| 0 <= j < earlier.len() && earlier[j] == k;
                            assert(picked[j] == k);
                        } else {
                            assert(picked[picked.len() - 1] == k);
                        }
                    }
                }
            }
            i += 1;
        }
        proof {
            let names = texts(affected@);
            assert forall|a: int, b: int| 0 <= a < b < names.len() implies names[a]
                != names[b] by {
                assert(picked[a] < picked[b]);
            }
            assert forall|name: Seq<char>|
                names.contains(name) <==> self@.tests.contains_key(name) && run_affected(
                    self@.tests[name],
                    changed_views(changed_blocks@),
                ) by {
                if names.contains(name) {
                    let j = choose|j: int| 0 <= j < names.len() && names[j] == name;
                    lemma_test_map_at(self.tests@, picked[j]);
                }
                if self@.tests.contains_key(name) && run_affected(
                    self@.tests[name],
                    changed_views(changed_blocks@),
                ) {
                    let k = test_index(self.tests@, name);
                    lemma_test_map_at(self.tests@, k);
                    assert(picked.contains(k));
                    let j = choose|j: int| 0 <= j < picked.len() && picked[j] == k;
                    assert(names[j] == name);
                }
            }
        }
        affected
    }

    /// Stores the database as an image from which `restore` reads it back.
    ///
    /// Fails, with `EngineError::Store`, exactly when the database cannot
    /// be stored because a row or a cell would be longer than 4,294,967,295
    /// bytes.
    pub fn snapshot(&self) -> (result: Result<Vec<u8>, EngineError>)
        ensures
            match result {
                Ok(image) => {
                    &&& storable(self@)
                    &&& restored(self@.path, image@) == Ok::<DatabaseView, Flaw>(self@)
                },
                Err(e) => !storable(self@) && e is Store,
            },
    {
        proof {
            use_type_invariant(self);
        }
        let mut rows: Vec<Vec<u8>> = Vec::new();
        let ghost mut records: Seq<RecordView> = Seq::empty();
        let ghost none = Map::<Seq<char>, TestRunView>::empty();
        let mut i: usize = 0;
        assert(file_map(self.baseline@.take(0)) =~= empty_database(self@.path).baseline);
        while i < self.baseline.len()
            invariant
                i <= self.baseline@.len(),
                distinct_files(self.baseline@),
                all_stored(self.baseline@),
                none == Map::<Seq<char>, TestRunView>::empty(),
                records.len() == rows@.len(),
                forall|k: int|
                    0 <= k < rows@.len() ==> (#[trigger] rows@[k])@ == record_row(records[k])
                        && fields_fit(record_cells(records[k])) && rows@[k]@.len() <= u32::MAX,
                forall|k: int| 0 <= k < i ==> row_fits(
                    RecordView::Baseline((#[trigger] self.baseline@[k])@),
                ),
                load_rows(self@.path, byte_fields(rows@), rows@.len() as int) == Ok::<
                    LoadState,
                    Flaw,
                >(
                    LoadState {
                        db: DatabaseView {
                            path: self@.path,
                            baseline: file_map(self.baseline@.take(i as int)),
                            tests: none,
                        },
                        current: None,
                    },
                ),
            decreases self.baseline.len() - i,
        {
            let fp: &Fingerprint = &self.baseline[i];
            let ghost record = RecordView::Baseline(fp@);
            proof {
                lemma_file_map_at(self.baseline@, i as int);
                assert(fp@.stored() == fp@);
            }
            let row: Vec<u8> = match write_baseline_row(fp) {
                Ok(row) => row,
                Err(e) => {
                    return Err(e);
                },
            };
            if row.len() > 0xffff_ffff {
                return Err(EngineError::Store("a row is too long to be stored".to_string()));
            }
            proof {
                let earlier = byte_fields(rows@);
                let grown = byte_fields(rows@.push(row));
                assert(grown =~= earlier.push(row@));
                lemma_load_rows_reads_prefix(self@.path, earlier, grown, earlier.len() as int);
                stored_record_reads_back(record);
                lemma_file_map_grows(self.baseline@, i as int);
                records = records.push(record);
            }
            rows.push(row);
            i += 1;
        }
        assert(self.baseline@.take(self.baseline@.len() as int) =~= self.baseline@);
        let ghost baseline = file_map(self.baseline@);
        let mut j: usize = 0;
        assert(test_map(self.tests@.take(0)) =~= none);
        let ghost mut current: Option<(Seq<char>, u64, bool)> = None;
        while j < self.tests.len()
            invariant
                j <= self.tests@.len(),
                baseline == file_map(self.baseline@),
                distinct_tests(self.tests@),
                forall|k: int|
                    0 <= k < self.tests@.len() ==> distinct_files(
                        (#[trigger] self.tests@[k]).fingerprints@,
                    ) && all_stored(self.tests@[k].fingerprints@),
                records.len() == rows@.len(),
                forall|k: int|
                    0 <= k < rows@.len() ==> (#[trigger] rows@[k])@ == record_row(records[k])
                        && fields_fit(record_cells(records[k])) && rows@[k]@.len() <= u32::MAX,
                forall|k: int| 0 <= k < self.baseline@.len() ==> row_fits(
                    RecordView::Baseline((#[trigger] self.baseline@[k])@),
                ),
                forall|k: int|
                    0 <= k < j ==> row_fits(
                        RecordView::Test {
                            test_name: (#[trigger] self.tests@[k]).test_name@,
                            duration: self.tests@[k].duration,
                            failed: self.tests@[k].failed,
                        },
                    ),
                forall|k: int, l: int|
                    0 <= k < j && 0 <= l < self.tests@[k].fingerprints@.len() ==> row_fits(
                        RecordView::LastRun((#[trigger] self.tests@[k].fingerprints@[l])@),
                    ),
                load_rows(self@.path, byte_fields(rows@), rows@.len() as int) == Ok::<
                    LoadState,
                    Flaw,
                >(
                    LoadState {
                        db: DatabaseView {
                            path: self@.path,
                            baseline,
                            tests: test_map(self.tests@.take(j as int)),
                        },
                        current,
                    },
                ),
            decreases self.tests.len() - j,
        {
            let test: &TestExecution = &self.tests[j];
            let ghost name = test.test_name@;
            let ghost earlier_tests = test_map(self.tests@.take(j as int));
            let ghost meta = RecordView::Test {
                test_name: name,
                duration: test.duration,
                failed: test.failed,
            };
            let row: Vec<u8> = match write_test_row(
                test.test_name.as_str(),
                test.duration,
                test.failed,
            ) {
                Ok(row) => row,
                Err(e) => {
                    proof {
                        lemma_test_map_at(self.tests@, j as int);
                    }
                    return Err(e);
                },
            };
            if row.len() > 0xffff_ffff {
                proof {
                    lemma_test_map_at(self.tests@, j as int);
                }
                return Err(EngineError::Store("a row is too long to be stored".to_string()));
            }
            proof {
                let earlier = byte_fields(rows@);
                let grown = byte_fields(rows@.push(row));
                assert(grown =~= earlier.push(row@));
                lemma_load_rows_reads_prefix(self@.path, earlier, grown, earlier.len() as int);
                stored_record_reads_back(meta);
                lemma_test_map_grows(self.tests@, j as int);
                records = records.push(meta);
                current = Some((name, test.duration, test.failed));
                assert(file_map(test.fingerprints@.take(0)) =~= Map::<
                    Seq<char>,
                    FingerprintView,
                >::empty());
            }
            rows.push(row);
            let mut k: usize = 0;
            while k < test.fingerprints.len()
                invariant
                    k <= test.fingerprints@.len(),
                    test == self.tests@[j as int],
                    name == test.test_name@,
                    j < self.tests@.len(),
                    distinct_tests(self.tests@),
                    distinct_files(test.fingerprints@),
                    all_stored(test.fingerprints@),
                    !earlier_tests.contains_key(name),
                    current == Some((name, test.duration, test.failed)),
                    records.len() == rows@.len(),
                    forall|m: int|
                        0 <= m < rows@.len() ==> (#[trigger] rows@[m])@ == record_row(records[m])
                            && fields_fit(record_cells(records[m])) && rows@[m]@.len()
                            <= u32::MAX,
                    forall|l: int|
                        0 <= l < k ==> row_fits(
                            RecordView::LastRun((#[trigger] test.fingerprints@[l])@),
                        ),
                    load_rows(self@.path, byte_fields(rows@), rows@.len() as int) == Ok::<
                    LoadState,
                    Flaw,
                >(
                        LoadState {
                            db: DatabaseView {
                                path: self@.path,
                                baseline,
                                tests: earlier_tests.insert(
                                    name,
                                    TestRunView {
                                        duration: test.duration,
                                        failed: test.failed,
                                        fingerprints: file_map(test.fingerprints@.take(k as int)),
                                    },
                                ),
                            },
                            current,
                        },
                    ),
                decreases test.fingerprints.len() - k,
            {
                let fp: &Fingerprint = &test.fingerprints[k];
                let ghost record = RecordView::LastRun(fp@);
                assert(fp@.stored() == fp@);
                let row: Vec<u8> = match write_last_run_row(fp) {
                    Ok(row) => row,
                    Err(e) => {
                        proof {
                            lemma_test_map_at(self.tests@, j as int);
                            lemma_file_map_at(test.fingerprints@, k as int);
                            assert(self@.tests[name].fingerprints[fp.filename@] == fp@);
                            assert(!row_fits(RecordView::LastRun(fp@)));
                        }
                        return Err(e);
                    },
                };
                if row.len() > 0xffff_ffff {
                    proof {
                        lemma_test_map_at(self.tests@, j as int);
                        lemma_file_map_at(test.fingerprints@, k as int);
                        assert(self@.tests[name].fingerprints[fp.filename@] == fp@);
                        assert(!row_fits(RecordView::LastRun(fp@)));
                    }
                    return Err(EngineError::Store("a row is too long to be stored".to_string()));
                }
                proof {
                    let earlier = byte_fields(rows@);
                    let grown = byte_fields(rows@.push(row));
                    assert(grown =~= earlier.push(row@));
                    lemma_load_rows_reads_prefix(self@.path, earlier, grown, earlier.len() as int);
                    stored_record_reads_back(record);
                    lemma_file_map_grows(test.fingerprints@, k as int);
                    records = records.push(record);
                    let before = earlier_tests.insert(
                        name,
                        TestRunView {
                            duration: test.duration,
                            failed: test.failed,
                            fingerprints: file_map(test.fingerprints@.take(k as int)),
                        },
                    );
                    let after = earlier_tests.insert(
                        name,
                        TestRunView {
                            duration: test.duration,
                            failed: test.failed,
                            fingerprints: file_map(test.fingerprints@.take(k + 1)),
                        },
                    );
                    assert(before.insert(name, after[name]) =~= after);
                }
                rows.push(row);
                k += 1;
            }
            proof {
                assert(test.fingerprints@.take(test.fingerprints@.len() as int)
                    =~= test.fingerprints@);
            }
            j += 1;
        }
        proof {
            assert(self.tests@.take(self.tests@.len() as int) =~= self.tests@);
            assert forall|name: Seq<char>| self@.baseline.contains_key(name) implies row_fits(
                RecordView::Baseline(#[trigger] self@.baseline[name]),
            ) by {
                let k = crate::table::file_index(self.baseline@, name);
                lemma_file_map_at(self.baseline@, k);
            }
            assert forall|test_name: Seq<char>| self@.tests.contains_key(test_name) implies row_fits(
                RecordView::Test {
                    test_name,
                    duration: (#[trigger] self@.tests[test_name]).duration,
                    failed: self@.tests[test_name].failed,
                },
            ) by {
                let k = test_index(self.tests@, test_name);
                lemma_test_map_at(self.tests@, k);
            }
            assert forall|test_name: Seq<char>, name: Seq<char>|
                self@.tests.contains_key(test_name) && self@.tests[test_name].fingerprints.contains_key(
                    name,
                ) implies row_fits(
                RecordView::LastRun(#[trigger] self@.tests[test_name].fingerprints[name]),
            ) by {
                let k = test_index(self.tests@, test_name);
                lemma_test_map_at(self.tests@, k);
                let l = crate::table::file_index(self.tests@[k].fingerprints@, name);
                lemma_file_map_at(self.tests@[k].fingerprints@, l);
            }
        }
        let framed: Vec<u8> = match frame_fields(&rows) {
            Ok(framed) => framed,
            Err(e) => {
                proof {
                    assert(fields_fit(byte_fields(rows@))) by {
                        assert forall|m: int| 0 <= m < rows@.len() implies (#[trigger] byte_fields(
                            rows@,
                        )[m]).len() <= u32::MAX by {
                            assert(rows@[m]@.len() <= u32::MAX);
                        }
                    }
                }
                return Err(e);
            },
        };
        let head: &[u8] = "TESTMON1".as_bytes();
        let mut image: Vec<u8> = Vec::new();
        let mut at: usize = 0;
        while at < head.len()
            invariant
                at <= head@.len(),
                image@ == head@.take(at as int),
            decreases head.len() - at,
        {
            image.push(head[at]);
            assert(head@.take(at + 1) =~= head@.take(at as int).push(head@[at as int]));
            at += 1;
        }
        let mut at: usize = 0;
        while at < framed.len()
            invariant
                at <= framed@.len(),
                image@ == head@ + framed@.take(at as int),
                head@.take(head@.len() as int) == head@,
            decreases framed.len() - at,
        {
            image.push(framed[at]);
            assert(framed@.take(at + 1) =~= framed@.take(at as int).push(framed@[at as int]));
            at += 1;
        }
        proof {
            assert(framed@.take(framed@.len() as int) =~= framed@);
            framed_fields_unframe(byte_fields(rows@));
            assert(image@.subrange(0, magic().len() as int) =~= magic());
            assert(image@.subrange(magic().len() as int, image@.len() as int) =~= framed@);
        }
        Ok(image)
    }
}

} // verus!
