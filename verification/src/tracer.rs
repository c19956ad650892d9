use crate::table::same_text;
use crate::types::{EngineError, FileCoverage};
use vstd::prelude::*;

verus! {

/// The lines of one file that ran during one test, in increasing order.
struct LineRow {
    test_name: String,
    filename: String,
    lines: Vec<usize>,
}

/// What a collector holds: the test that is running, if any, and for each
/// test and file the lines of the file that ran during the test.
pub ghost struct CollectorView {
    pub current_test: Option<Seq<char>>,
    pub lines: Map<(Seq<char>, Seq<char>), Set<usize>>,
}

/// Each line is greater than the one before it.
pub open spec fn increasing(lines: Seq<usize>) -> bool {
    forall|i: int, j: int| 0 <= i < j < lines.len() ==> lines[i] < lines[j]
}

spec fn row_key(row: LineRow) -> (Seq<char>, Seq<char>) {
    (row.test_name@, row.filename@)
}

spec fn has_row(rows: Seq<LineRow>, key: (Seq<char>, Seq<char>)) -> bool {
    exists|i: int| 0 <= i < rows.len() && row_key(#[trigger] rows[i]) == key
}

spec fn distinct_rows(rows: Seq<LineRow>) -> bool {
    forall|i: int, j: int|
        0 <= i < j < rows.len() ==> row_key(#[trigger] rows[i]) != row_key(#[trigger] rows[j])
}

spec fn row_at(rows: Seq<LineRow>, key: (Seq<char>, Seq<char>)) -> int {
    choose|i: int| 0 <= i < rows.len() && row_key(#[trigger] rows[i]) == key
}

spec fn line_map(rows: Seq<LineRow>) -> Map<(Seq<char>, Seq<char>), Set<usize>> {
    Map::new(
        |key: (Seq<char>, Seq<char>)| has_row(rows, key),
        |key: (Seq<char>, Seq<char>)| rows[row_at(rows, key)].lines@.to_set(),
    )
}

/// The lines recorded for a test and a file; none where nothing was
/// recorded.
pub open spec fn recorded_lines(
    lines: Map<(Seq<char>, Seq<char>), Set<usize>>,
    test_name: Seq<char>,
    filename: Seq<char>,
) -> Set<usize> {
    if lines.contains_key((test_name, filename)) {
        lines[(test_name, filename)]
    } else {
        Set::empty()
    }
}

/// The files that a finished test hands out: one entry for each file that
/// has lines recorded for the test, with exactly those lines in increasing
/// order.
pub open spec fn is_coverage_of(
    files: Seq<FileCoverage>,
    lines: Map<(Seq<char>, Seq<char>), Set<usize>>,
    test_name: Seq<char>,
) -> bool {
    &&& forall|i: int, j: int|
        0 <= i < j < files.len() ==> (#[trigger] files[i]).filename@ != (
        #[trigger] files[j]).filename@
    &&& forall|i: int|
        0 <= i < files.len() ==> {
            &&& lines.contains_key((test_name, (#[trigger] files[i]).filename@))
            &&& files[i].lines@.to_set() == lines[(test_name, files[i].filename@)]
            &&& increasing(files[i].lines@)
        }
    &&& forall|filename: Seq<char>|
        lines.contains_key((test_name, filename)) ==> exists|i: int|
            0 <= i < files.len() && (#[trigger] files[i]).filename@ == filename
}

proof fn lemma_line_map_at(rows: Seq<LineRow>, i: int)
    requires
        distinct_rows(rows),
        0 <= i < rows.len(),
    ensures
        line_map(rows).contains_key(row_key(rows[i])),
        line_map(rows)[row_key(rows[i])] == rows[i].lines@.to_set(),
{
    let key = row_key(rows[i]);
    assert(has_row(rows, key));
    let j = row_at(rows, key);
    assert(i == j) by {
        if i < j {
            assert(row_key(rows[i]) != row_key(rows[j]));
        } else if j < i {
            assert(row_key(rows[j]) != row_key(rows[i]));
        }
    }
}

/// Puts a line into an increasing list, unless it is there.
pub fn insert_line(lines: &mut Vec<usize>, line: usize)
    requires
        increasing(old(lines)@),
    ensures
        increasing(final(lines)@),
        final(lines)@.to_set() == old(lines)@.to_set().insert(line),
{
    let ghost before = lines@;
    let mut at: usize = 0;
    while at < lines.len() && lines[at] < line
        invariant
            lines@ == before,
            at <= lines@.len(),
            forall|k: int| 0 <= k < at ==> lines@[k] < line,
        decreases lines.len() - at,
    {
        at += 1;
    }
    if at < lines.len() && lines[at] == line {
        assert(before.to_set() =~= before.to_set().insert(line)) by {
            assert(before.contains(before[at as int]));
        }
        return ;
    }
    lines.insert(at, line);
    proof {
        let after = lines@;
        assert forall|i: int, j: int| 0 <= i < j < after.len() implies after[i] < after[j] by {
            if i < at && j > at {
                assert(after[i] == before[i] && after[j] == before[j - 1]);
            }
        }
        assert forall|x: usize| after.to_set().contains(x) == before.to_set().insert(
            line,
        ).contains(x) by {
            if after.contains(x) {
                let k = choose|k: int| 0 <= k < after.len() && after[k] == x;
                if k < at {
                    assert(before[k] == x);
                } else if k > at {
                    assert(before[k - 1] == x);
                }
            }
            if before.contains(x) {
                let k = choose|k: int| 0 <= k < before.len() && before[k] == x;
                if k < at {
                    assert(after[k] == x);
                } else {
                    assert(after[k + 1] == x);
                }
            }
            if x == line {
                assert(after[at as int] == x);
            }
        }
        assert(after.to_set() =~= before.to_set().insert(line));
    }
}

fn find_row(rows: &Vec<LineRow>, test_name: &str, filename: &str) -> (found: Option<usize>)
    ensures
        match found {
            Some(i) => i < rows@.len() && row_key(rows@[i as int]) == (test_name@, filename@),
            None => !has_row(rows@, (test_name@, filename@)),
        },
{
    let mut i: usize = 0;
    while i < rows.len()
        invariant
            i <= rows@.len(),
            forall|k: int| 0 <= k < i ==> row_key(#[trigger] rows@[k]) != (test_name@, filename@),
        decreases rows.len() - i,
    {
        if same_text(rows[i].test_name.as_str(), test_name) && same_text(
            rows[i].filename.as_str(),
            filename,
        ) {
            return Some(i);
        }
        i += 1;
    }
    None
}

/// Collects the lines that run while a test runs.
pub struct CoverageCollector {
    current_test: Option<String>,
    rows: Vec<LineRow>,
}

impl View for CoverageCollector {
    type V = CollectorView;

    closed spec fn view(&self) -> CollectorView {
        CollectorView {
            current_test: match self.current_test {
                Some(name) => Some(name@),
                None => None,
            },
            lines: line_map(self.rows@),
        }
    }
}

impl CoverageCollector {
    #[verifier::type_invariant]
    spec fn well_formed(self) -> bool {
        &&& distinct_rows(self.rows@)
        &&& forall|i: int| 0 <= i < self.rows@.len() ==> increasing((#[trigger] self.rows@[i]).lines@)
    }

    /// A collector with no test running and nothing recorded.
    pub fn new() -> (collector: CoverageCollector)
        ensures
            collector@.current_test is None,
            collector@.lines == Map::<(Seq<char>, Seq<char>), Set<usize>>::empty(),
    {
        let collector = CoverageCollector { current_test: None, rows: Vec::new() };
        assert(collector@.lines =~= Map::<(Seq<char>, Seq<char>), Set<usize>>::empty());
        collector
    }

    /// Makes `test_name` the running test. What is recorded stays.
    pub fn start_test(&mut self, test_name: String)
        ensures
            final(self)@.current_test == Some(test_name@),
            final(self)@.lines == old(self)@.lines,
    {
        proof {
            use_type_invariant(&*self);
        }
        self.current_test = Some(test_name);
    }

    /// Records that a line of a file ran. Nothing is recorded while no test
    /// is running.
    pub fn record_line(&mut self, filename: String, line_no: usize)
        ensures
            final(self)@.current_test == old(self)@.current_test,
            match old(self)@.current_test {
                None => final(self)@.lines == old(self)@.lines,
                Some(test_name) => final(self)@.lines == old(self)@.lines.insert(
                    (test_name, filename@),
                    recorded_lines(old(self)@.lines, test_name, filename@).insert(line_no),
                ),
            },
    {
        proof {
            use_type_invariant(&*self);
        }
        let mut rows: Vec<LineRow> = Vec::new();
        std::mem::swap(&mut rows, &mut self.rows);
        let ghost before = rows@;
        match &self.current_test {
            None => {},
            Some(test_name) => {
                let ghost key = (test_name@, filename@);
                let ghost at: int;
                match find_row(&rows, test_name.as_str(), filename.as_str()) {
                    Some(i) => {
                        proof {
                            at = i as int;
                            lemma_line_map_at(before, at);
                        }
                        insert_line(&mut rows[i].lines, line_no);
                    },
                    None => {
                        proof {
                            at = before.len() as int;
                        }
                        let mut lines: Vec<usize> = Vec::new();
                        lines.push(line_no);
                        assert(lines@.to_set() =~= Set::<usize>::empty().insert(line_no)) by {
                            assert(lines@[0] == line_no);
                        }
                        rows.push(LineRow { test_name: test_name.clone(), filename, lines });
                    },
                }
                proof {
                    let after = rows@;
                    let added = recorded_lines(line_map(before), key.0, key.1).insert(line_no);
                    assert(row_key(after[at]) == key);
                    assert(after[at].lines@.to_set() == added);
                    assert(forall|k: int|
                        0 <= k < before.len() && k != at ==> after[k] == before[k]);
                    assert(forall|k: int|
                        0 <= k < before.len() ==> row_key(after[k]) == row_key(before[k]));
                    assert(distinct_rows(after));
                    assert forall|k: (Seq<char>, Seq<char>)| has_row(after, k) == (has_row(
                        before,
                        k,
                    ) || k == key) by {
                        if has_row(after, k) && k != key {
                            let j = row_at(after, k);
                            assert(row_key(before[j]) == k);
                        }
                        if has_row(before, k) {
                            let j = row_at(before, k);
                            assert(row_key(after[j]) == k);
                        }
                        if k == key {
                            assert(row_key(after[at]) == k);
                        }
                    }
                    assert forall|k: (Seq<char>, Seq<char>)| has_row(after, k) implies #[trigger] line_map(
                        after,
                    )[k] == line_map(before).insert(key, added)[k] by {
                        let j = row_at(after, k);
                        lemma_line_map_at(after, j);
                        if k != key {
                            lemma_line_map_at(before, j);
                        }
                    }
                    assert(line_map(after) =~= line_map(before).insert(key, added));
                }
            },
        }
        self.rows = rows;
    }

    /// Ends the running test and hands out what ran during it: for each
    /// file the lines that ran, in increasing order. What was recorded for
    /// the test is dropped; what was recorded for other tests stays.
    ///
    /// Fails, with `EngineError::Invariant` and without changing anything,
    /// exactly when no test is running.
    pub fn finish_test(&mut self) -> (result: Result<Vec<FileCoverage>, EngineError>)
        ensures
            match result {
                Err(e) => {
                    &&& old(self)@.current_test is None
                    &&& e is Invariant
                    &&& final(self)@ == old(self)@
                },
                Ok(files) => {
                    &&& old(self)@.current_test matches Some(test_name)
                    &&& final(self)@.current_test is None
                    &&& is_coverage_of(files@, old(self)@.lines, test_name)
                    &&& final(self)@.lines == old(self)@.lines.remove_keys(
                        Set::new(|key: (Seq<char>, Seq<char>)| key.0 == test_name),
                    )
                },
            },
    {
        proof {
            use_type_invariant(&*self);
        }
        let mut current: Option<String> = None;
        std::mem::swap(&mut current, &mut self.current_test);
        let test_name: String = match current {
            None => {
                return Err(EngineError::Invariant("no test is running".to_string()));
            },
            Some(name) => name,
        };
        let mut rows: Vec<LineRow> = Vec::new();
        std::mem::swap(&mut rows, &mut self.rows);
        let ghost before = rows@;
        let ghost name = test_name@;
        let mut files: Vec<FileCoverage> = Vec::new();
        let mut kept: Vec<LineRow> = Vec::new();
        let ghost mut file_from: Seq<int> = Seq::empty();
        let ghost mut kept_from: Seq<int> = Seq::empty();
        let mut i: usize = 0;
        let n: usize = rows.len();
        while i < n
            invariant
                n == before.len(),
                i <= n,
                name == test_name@,
                distinct_rows(before),
                forall|k: int| 0 <= k < n ==> increasing((#[trigger] before[k]).lines@),
                rows@.len() == n - i,
                forall|k: int| 0 <= k < rows@.len() ==> rows@[k] == before[k],
                file_from.len() == files@.len(),
                kept_from.len() == kept@.len(),
                forall|j: int|
                    0 <= j < files@.len() ==> n - i <= #[trigger] file_from[j] < n && before[file_from[j]].test_name@
                        == name && files@[j].filename@ == before[file_from[j]].filename@
                        && files@[j].lines@ == before[file_from[j]].lines@,
                forall|j: int, l: int| 0 <= j < l < files@.len() ==> file_from[j] > file_from[l],
                forall|j: int|
                    0 <= j < kept@.len() ==> n - i <= #[trigger] kept_from[j] < n && kept@[j]
                        == before[kept_from[j]] && before[kept_from[j]].test_name@ != name,
                forall|j: int, l: int| 0 <= j < l < kept@.len() ==> kept_from[j] > kept_from[l],
                forall|k: int|
                    n - i <= k < n ==> if (#[trigger] before[k]).test_name@ == name {
                        file_from.contains(k)
                    } else {
                        kept_from.contains(k)
                    },
            decreases n - i,
        {
            let ghost top = n - 1 - i;
            let row: LineRow = rows.pop().unwrap();
            assert(row == before[top]);
            if same_text(row.test_name.as_str(), test_name.as_str()) {
                assert(before[top].test_name@ == name);
                let ghost earlier = file_from;
                files.push(FileCoverage { filename: row.filename, lines: row.lines });
                proof {
                    file_from = file_from.push(top);
                    assert forall|k: int|
                        n - (i + 1) <= k < n && before[k].test_name@ == name implies file_from.contains(
                        k,
                    ) by {
                        if k > top {
                            let j = choose|j: int| 0 <= j < earlier.len() && earlier[j] == k;
                            assert(file_from[j] == k);
                        } else {
                            assert(file_from[file_from.len() - 1] == k);
                        }
                    }
                    assert forall|k: int|
                        n - (i + 1) <= k < n && before[k].test_name@ != name implies kept_from.contains(
                        k,
                    ) by {
                        assert(k > top);
                    }
                }
            } else {
                assert(before[top].test_name@ != name);
                let ghost earlier = kept_from;
                kept.push(row);
                proof {
                    kept_from = kept_from.push(top);
                    assert forall|k: int|
                        n - (i + 1) <= k < n && before[k].test_name@ != name implies kept_from.contains(
                        k,
                    ) by {
                        if k > top {
                            let j = choose|j: int| 0 <= j < earlier.len() && earlier[j] == k;
                            assert(kept_from[j] == k);
                        } else {
                            assert(kept_from[kept_from.len() - 1] == k);
                        }
                    }
                    assert forall|k: int|
                        n - (i + 1) <= k < n && before[k].test_name@ == name implies file_from.contains(
                        k,
                    ) by {
                        assert(k > top);
                    }
                }
            }
            i += 1;
        }
        proof {
            let old_lines = line_map(before);
            assert forall|a: int, b: int| 0 <= a < b < kept@.len() implies row_key(kept@[a])
                != row_key(kept@[b]) by {
                assert(kept_from[a] > kept_from[b]);
            }
            assert forall|j: int| 0 <= j < files@.len() implies {
                &&& old_lines.contains_key((name, (#[trigger] files@[j]).filename@))
                &&& files@[j].lines@.to_set() == old_lines[(name, files@[j].filename@)]
                &&& increasing(files@[j].lines@)
            } by {
                lemma_line_map_at(before, file_from[j]);
            }
            assert forall|a: int, b: int| 0 <= a < b < files@.len() implies (#[trigger] files@[a]).filename@
                != (#[trigger] files@[b]).filename@ by {
                assert(file_from[a] > file_from[b]);
                assert(row_key(before[file_from[b]]) != row_key(before[file_from[a]]));
            }
            assert forall|filename: Seq<char>| old_lines.contains_key((name, filename)) implies exists|
                j: int,
            |
                0 <= j < files@.len() && (#[trigger] files@[j]).filename@ == filename by {
                let k = row_at(before, (name, filename));
                assert(file_from.contains(k));
                let j = choose|j: int| 0 <= j < file_from.len() && file_from[j] == k;
                assert(files@[j].filename@ == filename);
            }
            let gone = Set::new(|key: (Seq<char>, Seq<char>)| key.0 == name);
            assert forall|key: (Seq<char>, Seq<char>)| has_row(kept@, key) == (has_row(before, key)
                && key.0 != name) by {
                if has_row(kept@, key) {
                    let j = row_at(kept@, key);
                    assert(row_key(before[kept_from[j]]) == key);
                }
                if has_row(before, key) && key.0 != name {
                    let k = row_at(before, key);
                    assert(kept_from.contains(k));
                    let j = choose|j: int| 0 <= j < kept_from.len() && kept_from[j] == k;
                    assert(row_key(kept@[j]) == key);
                }
            }
            assert forall|key: (Seq<char>, Seq<char>)| has_row(kept@, key) implies #[trigger] line_map(
                kept@,
            )[key] == old_lines[key] by {
                let j = row_at(kept@, key);
                lemma_line_map_at(kept@, j);
                lemma_line_map_at(before, kept_from[j]);
            }
            assert(line_map(kept@) =~= old_lines.remove_keys(gone));
            assert forall|j: int| 0 <= j < kept@.len() implies increasing(
                (#[trigger] kept@[j]).lines@,
            ) by {
                assert(kept@[j] == before[kept_from[j]]);
            }
        }
        self.rows = kept;
        Ok(files)
    }

    /// Drops everything: no test is running and nothing is recorded.
    pub fn clear(&mut self)
        ensures
            final(self)@.current_test is None,
            final(self)@.lines == Map::<(Seq<char>, Seq<char>), Set<usize>>::empty(),
    {
        proof {
            use_type_invariant(&*self);
        }
        self.rows = Vec::new();
        self.current_test = None;
        assert(self@.lines =~= Map::<(Seq<char>, Seq<char>), Set<usize>>::empty());
    }
}

} // verus!
