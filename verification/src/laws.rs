use crate::changes::{
    baseline_after, baseline_of, baseline_row, baseline_rows, change_of, detection, detection_upto,
    file_change, in_reach, no_changes, reported_change, source_checksums,
};
use crate::checksum::checksum_of;
use crate::coverage::{dependencies_upto, executed_blocks, is_executed, reduced};
use crate::database::{with_files, DatabaseView};
use crate::fingerprint::{
    blake3_hex, changed_checksums, checksum_change, fingerprint_of, mtime_unchanged,
};
use crate::outline::{
    all_well_placed, block_of, elided_by, elided_in, is_definition, kept_lines, kept_lines_upto,
    module_block, well_placed, StatementKind, StatementView,
};
use crate::parser::{is_parse_of, source_blocks, source_outline};
use crate::paths::{admitted, in_scope, is_test_file, lies_under};
use crate::signature::{
    closes_signature, lemma_signature_end_bounds, no_depth, scan_line, signature_end,
    signature_end_from, Depths,
};
use crate::text::{line_count, line_text, span_text};
use crate::types::{
    block_views, checksums_of, Block, BlockView, EngineError, FileCoverageView, FingerprintView,
    SourceFileView,
};
use vstd::prelude::*;
use vstd::utf8::encode_utf8;

verus! {

/// Parsing is a function of the bytes: whatever two calls of `parse_module`
/// on sources with the same bytes return, both fail with the same kind of
/// error or both give the same blocks, checksums included.
pub proof fn same_bytes_parse_alike(
    a: Seq<u8>,
    b: Seq<u8>,
    first: Result<Vec<Block>, EngineError>,
    second: Result<Vec<Block>, EngineError>,
)
    requires
        a == b,
        is_parse_of(a, first),
        is_parse_of(b, second),
    ensures
        first is Ok <==> second is Ok,
        first matches Ok(blocks) ==> block_views(blocks@) == block_views(second->Ok_0@)
            && checksums_of(block_views(blocks@)) == checksums_of(block_views(second->Ok_0@)),
        first matches Err(e) ==> (e is Parse <==> second->Err_0 is Parse) && (e is Invariant
            <==> second->Err_0 is Invariant),
{
}

/// A file whose bytes are those of its baseline is not reported, whatever
/// its modification time is and whether or not it parses.
pub proof fn unchanged_bytes_are_not_reported(
    db: DatabaseView,
    file: SourceFileView,
    scopes: Seq<Seq<char>>,
)
    requires
        baseline_of(db, file.filename) matches Some(stored) ==> stored.file_hash == blake3_hex(
            file.bytes(),
        ),
    ensures
        change_of(db, file) is None,
        reported_change(db, file, scopes) is None,
{
}

/// A file that was fingerprinted and is compared with that fingerprint as
/// its baseline, its bytes being the same, is not reported.
pub proof fn touched_file_is_not_reported(
    filename: Seq<char>,
    bytes: Seq<u8>,
    mtime_then: u64,
    blocks_then: Seq<BlockView>,
    mtime_now: u64,
)
    ensures
        file_change(
            Some(fingerprint_of(filename, bytes, mtime_then, blocks_then).stored()),
            mtime_now,
            blake3_hex(bytes),
            source_checksums(bytes),
        ) is None,
{
}

/// Where one block of a file has changed its checksum and every other block
/// has kept its own, and the old checksum of that block occurs nowhere in
/// the new list, the checksums that the file has lost are that old checksum
/// and nothing else.
pub proof fn one_changed_block_is_reported_alone(stored: Seq<i32>, current: Seq<i32>, k: int)
    requires
        stored.len() == current.len(),
        0 <= k < stored.len(),
        forall|i: int| 0 <= i < stored.len() && i != k ==> current[i] == stored[i],
        !current.contains(stored[k]),
    ensures
        changed_checksums(stored, current) == seq![stored[k]],
        checksum_change(stored, current) == Some(seq![stored[k]]),
{
    let gone = |c: i32| !current.contains(c);
    lemma_filter_single(stored, gone, k, stored.len() as int);
    assert(stored.take(stored.len() as int) =~= stored);
    assert(current[k] != stored[k]) by {
        assert(current.contains(current[k]));
    }
}

/// Filtering the first `n` elements of a sequence of which only the one at
/// `k` meets the predicate.
proof fn lemma_filter_single(s: Seq<i32>, pred: spec_fn(i32) -> bool, k: int, n: int)
    requires
        0 <= k < s.len(),
        0 <= n <= s.len(),
        pred(s[k]),
        forall|i: int| 0 <= i < s.len() && i != k ==> !pred(s[i]),
    ensures
        s.take(n).filter(pred) == if n > k {
            seq![s[k]]
        } else {
            Seq::<i32>::empty()
        },
    decreases n,
{
    reveal(Seq::filter);
    if n > 0 {
        lemma_filter_single(s, pred, k, n - 1);
        assert(s.take(n).drop_last() =~= s.take(n - 1));
        assert(s.take(n).last() == s[n - 1]);
        if n - 1 == k {
            assert(Seq::<i32>::empty().push(s[k]) =~= seq![s[k]]);
        }
    } else {
        assert(s.take(0) =~= Seq::<i32>::empty());
    }
}

/// An edit that changes one block of a file is reported with the old
/// checksum of that block and nothing else.
///
/// Let a file be in reach and have the fingerprint of its old bytes as
/// baseline; let its new bytes parse, its modification time and digest
/// differ from the stored ones, its new blocks be as many as the old, all
/// but the one at `k` with their old checksums, and the old checksum of
/// that one occur nowhere among the new. Then the file is reported, and
/// what it has lost is that old checksum alone: not the new checksum of the
/// block, and not the checksum of another block, such as the module block
/// where it is not the one that changed.
pub proof fn edited_block_is_reported(
    db: DatabaseView,
    old_bytes: Seq<u8>,
    old_mtime: u64,
    file: SourceFileView,
    scopes: Seq<Seq<char>>,
    k: int,
)
    requires
        in_reach(file, scopes),
        source_blocks(old_bytes) is Some,
        source_blocks(file.bytes()) is Some,
        baseline_of(db, file.filename) == Some(
            fingerprint_of(
                file.filename,
                old_bytes,
                old_mtime,
                source_blocks(old_bytes)->0,
            ).stored(),
        ),
        !mtime_unchanged(old_mtime, file.mtime),
        blake3_hex(file.bytes()) != blake3_hex(old_bytes),
        source_blocks(old_bytes)->0.len() == source_blocks(file.bytes())->0.len(),
        0 <= k < source_blocks(old_bytes)->0.len(),
        forall|i: int|
            0 <= i < source_blocks(old_bytes)->0.len() && i != k ==> (#[trigger] source_blocks(
                file.bytes(),
            )->0[i]).checksum == source_blocks(old_bytes)->0[i].checksum,
        forall|i: int|
            0 <= i < source_blocks(old_bytes)->0.len() ==> (#[trigger] source_blocks(
                file.bytes(),
            )->0[i]).checksum != source_blocks(old_bytes)->0[k].checksum,
    ensures
        reported_change(db, file, scopes) == Some(seq![source_blocks(old_bytes)->0[k].checksum]),
        source_blocks(file.bytes())->0[k].checksum != source_blocks(old_bytes)->0[k].checksum,
        forall|i: int|
            0 <= i < source_blocks(old_bytes)->0.len() && i != k ==> source_blocks(
                old_bytes,
            )->0[i].checksum != source_blocks(old_bytes)->0[k].checksum,
{
    let old_blocks = source_blocks(old_bytes)->0;
    let new_blocks = source_blocks(file.bytes())->0;
    let stored = checksums_of(old_blocks);
    let current = checksums_of(new_blocks);
    assert(!current.contains(stored[k])) by {
        if current.contains(stored[k]) {
            let i = choose|i: int| 0 <= i < current.len() && current[i] == stored[k];
            assert(new_blocks[i].checksum != old_blocks[k].checksum);
        }
    }
    assert forall|i: int| 0 <= i < stored.len() && i != k implies current[i] == stored[i] by {
        assert(new_blocks[i].checksum == old_blocks[i].checksum);
    }
    one_changed_block_is_reported_alone(stored, current, k);
    assert(new_blocks[k].checksum != old_blocks[k].checksum);
    assert forall|i: int| 0 <= i < old_blocks.len() && i != k implies old_blocks[i].checksum
        != old_blocks[k].checksum by {
        assert(new_blocks[i].checksum == old_blocks[i].checksum);
    }
}

/// A file of which something is reported stands in the report of a
/// detection run: its name among the modified files and, where it has lost
/// checksums, the lost checksums under its name.
pub proof fn reported_change_is_in_the_report(
    db: DatabaseView,
    files: Seq<SourceFileView>,
    scopes: Seq<Seq<char>>,
    i: int,
)
    requires
        0 <= i < files.len(),
        reported_change(db, files[i], scopes) is Some,
    ensures
        detection(db, files, scopes).modified.contains(files[i].filename),
        reported_change(db, files[i], scopes)->0.len() > 0 ==> detection(
            db,
            files,
            scopes,
        ).changed_blocks.contains((files[i].filename, reported_change(db, files[i], scopes)->0)),
{
    lemma_report_keeps(db, files, scopes, i, files.len() as int);
}

proof fn lemma_report_keeps(
    db: DatabaseView,
    files: Seq<SourceFileView>,
    scopes: Seq<Seq<char>>,
    i: int,
    n: int,
)
    requires
        0 <= i < n <= files.len(),
        reported_change(db, files[i], scopes) is Some,
    ensures
        detection_upto(db, files, scopes, n).modified.contains(files[i].filename),
        reported_change(db, files[i], scopes)->0.len() > 0 ==> detection_upto(
            db,
            files,
            scopes,
            n,
        ).changed_blocks.contains((files[i].filename, reported_change(db, files[i], scopes)->0)),
    decreases n,
{
    let now = detection_upto(db, files, scopes, n);
    let earlier = detection_upto(db, files, scopes, n - 1);
    let name = files[i].filename;
    let lost = reported_change(db, files[i], scopes)->0;
    if i == n - 1 {
        assert(now.modified[now.modified.len() - 1] == name);
        if lost.len() > 0 {
            assert(now.changed_blocks[now.changed_blocks.len() - 1] == (name, lost));
        }
    } else {
        lemma_report_keeps(db, files, scopes, i, n - 1);
        let at = choose|at: int| 0 <= at < earlier.modified.len() && earlier.modified[at] == name;
        assert(now.modified[at] == name);
        if lost.len() > 0 {
            let at = choose|at: int|
                0 <= at < earlier.changed_blocks.len() && earlier.changed_blocks[at] == (
                    name,
                    lost,
                );
            assert(now.changed_blocks[at] == (name, lost));
        }
    }
}

/// Every file that detection reports lies under one of the scopes, and is
/// one of the files that were given.
pub proof fn reported_files_are_in_scope(
    db: DatabaseView,
    files: Seq<SourceFileView>,
    scopes: Seq<Seq<char>>,
    n: int,
)
    requires
        0 <= n <= files.len(),
    ensures
        forall|j: int|
            0 <= j < detection_upto(db, files, scopes, n).modified.len() ==> {
                let name = #[trigger] detection_upto(db, files, scopes, n).modified[j];
                &&& in_scope(encode_utf8(name), scopes)
                &&& exists|i: int| 0 <= i < n && (#[trigger] files[i]).filename == name
            },
        forall|j: int|
            0 <= j < detection_upto(db, files, scopes, n).changed_blocks.len() ==> {
                let entry = #[trigger] detection_upto(db, files, scopes, n).changed_blocks[j];
                &&& in_scope(encode_utf8(entry.0), scopes)
                &&& detection_upto(db, files, scopes, n).modified.contains(entry.0)
                &&& entry.1.len() > 0
            },
    decreases n,
{
    if n > 0 {
        reported_files_are_in_scope(db, files, scopes, n - 1);
        let earlier = detection_upto(db, files, scopes, n - 1);
        let now = detection_upto(db, files, scopes, n);
        assert forall|j: int| 0 <= j < now.modified.len() implies {
            let name = #[trigger] now.modified[j];
            &&& in_scope(encode_utf8(name), scopes)
            &&& exists|i: int| 0 <= i < n && (#[trigger] files[i]).filename == name
        } by {
            if j < earlier.modified.len() {
                let name = earlier.modified[j];
                let i = choose|i: int| 0 <= i < n - 1 && (#[trigger] files[i]).filename == name;
                assert(files[i].filename == name);
            } else {
                assert(files[n - 1].filename == now.modified[j]);
            }
        }
        assert forall|j: int| 0 <= j < now.changed_blocks.len() implies {
            let entry = #[trigger] now.changed_blocks[j];
            &&& in_scope(encode_utf8(entry.0), scopes)
            &&& now.modified.contains(entry.0)
            &&& entry.1.len() > 0
        } by {
            let entry = now.changed_blocks[j];
            if j < earlier.changed_blocks.len() {
                assert(earlier.modified.contains(entry.0));
                let i = choose|i: int|
                    0 <= i < earlier.modified.len() && earlier.modified[i] == entry.0;
                assert(now.modified[i] == entry.0);
            } else {
                assert(now.modified[now.modified.len() - 1] == entry.0);
            }
        }
    }
}

/// Every fingerprint that a baseline run writes is of one of the files
/// that were given, and that file lies under one of the scopes.
pub proof fn baseline_rows_are_in_scope(
    files: Seq<SourceFileView>,
    scopes: Seq<Seq<char>>,
    n: int,
)
    requires
        0 <= n <= files.len(),
    ensures
        forall|j: int|
            0 <= j < baseline_rows(files, scopes, n).len() ==> {
                let row = #[trigger] baseline_rows(files, scopes, n)[j];
                &&& in_scope(encode_utf8(row.filename), scopes)
                &&& exists|i: int| 0 <= i < n && (#[trigger] files[i]).filename == row.filename
            },
    decreases n,
{
    if n > 0 {
        baseline_rows_are_in_scope(files, scopes, n - 1);
        let earlier = baseline_rows(files, scopes, n - 1);
        let now = baseline_rows(files, scopes, n);
        assert forall|j: int| 0 <= j < now.len() implies {
            let row = #[trigger] now[j];
            &&& in_scope(encode_utf8(row.filename), scopes)
            &&& exists|i: int| 0 <= i < n && (#[trigger] files[i]).filename == row.filename
        } by {
            if j < earlier.len() {
                let row = earlier[j];
                let i = choose|i: int|
                    0 <= i < n - 1 && (#[trigger] files[i]).filename == row.filename;
                assert(files[i].filename == row.filename);
            } else {
                assert(files[n - 1].filename == now[j].filename);
            }
        }
    }
}

/// Every dependency that coverage processing hands out is of a file that
/// was admitted: it lies under the project root and under one of the
/// scopes, and it is no test file other than the one that ran. No
/// dependency keeps a block list.
pub proof fn dependencies_are_admitted(
    coverage: Seq<FileCoverageView>,
    files: Seq<SourceFileView>,
    project_root: Seq<u8>,
    test_file: Seq<u8>,
    scopes: Seq<Seq<char>>,
    n: int,
)
    requires
        0 <= n <= coverage.len(),
    ensures
        forall|j: int|
            0 <= j < dependencies_upto(coverage, files, project_root, test_file, scopes, n).len()
                ==> {
                let fp = #[trigger] dependencies_upto(
                    coverage,
                    files,
                    project_root,
                    test_file,
                    scopes,
                    n,
                )[j];
                &&& admitted(encode_utf8(fp.filename), project_root, test_file, scopes)
                &&& lies_under(encode_utf8(fp.filename), project_root)
                &&& in_scope(encode_utf8(fp.filename), scopes)
                &&& is_test_file(encode_utf8(fp.filename)) ==> encode_utf8(fp.filename)
                    == test_file
                &&& fp.blocks is None
            },
    decreases n,
{
    if n > 0 {
        dependencies_are_admitted(coverage, files, project_root, test_file, scopes, n - 1);
    }
}

/// Every checksum that a reduced fingerprint retains is the checksum of a
/// block of the file in whose body, from the start of the body to the end of
/// the block, at least one executed line lies.
pub proof fn retained_checksums_ran(fp: FingerprintView, lines: Seq<usize>, j: int)
    requires
        fp.blocks matches Some(blocks),
        reduced(fp, lines) matches Some(kept),
        0 <= j < reduced(fp, lines)->0.checksums.len(),
    ensures
        exists|i: int|
            0 <= i < fp.blocks->0.len() && (#[trigger] fp.blocks->0[i]).checksum == reduced(
                fp,
                lines,
            )->0.checksums[j] && is_executed(fp.blocks->0[i], lines),
{
    let blocks = fp.blocks->0;
    let ran = |b: BlockView| is_executed(b, lines);
    let executed = executed_blocks(blocks, lines);
    blocks.lemma_filter_pred(ran, j);
    blocks.lemma_filter_contains_rev(ran, executed[j]);
    let i = choose|i: int| 0 <= i < blocks.len() && blocks[i] == executed[j];
    assert(blocks[i].checksum == reduced(fp, lines)->0.checksums[j]);
}

/// Writing rows reads only the rows that are written.
proof fn lemma_with_files_reads_prefix(
    map: Map<Seq<char>, FingerprintView>,
    a: Seq<FingerprintView>,
    b: Seq<FingerprintView>,
    n: int,
)
    requires
        n <= a.len(),
        n <= b.len(),
        forall|i: int| 0 <= i < n ==> a[i] == b[i],
    ensures
        with_files(map, a, n) == with_files(map, b, n),
    decreases n,
{
    if n > 0 {
        lemma_with_files_reads_prefix(map, a, b, n - 1);
    }
}

/// The baseline after a run over the first `n` files.
pub open spec fn baseline_after_upto(
    baseline: Map<Seq<char>, FingerprintView>,
    files: Seq<SourceFileView>,
    scopes: Seq<Seq<char>>,
    n: int,
) -> Map<Seq<char>, FingerprintView> {
    let rows = baseline_rows(files, scopes, n);
    with_files(baseline, rows, rows.len() as int)
}

/// A baseline run writes the files one after the other.
proof fn lemma_baseline_after_step(
    baseline: Map<Seq<char>, FingerprintView>,
    files: Seq<SourceFileView>,
    scopes: Seq<Seq<char>>,
    n: int,
)
    requires
        0 < n,
    ensures
        baseline_after_upto(baseline, files, scopes, n) == match baseline_row(
            files[n - 1],
            scopes,
        ) {
            Some(row) => baseline_after_upto(baseline, files, scopes, n - 1).insert(
                row.filename,
                row.stored(),
            ),
            None => baseline_after_upto(baseline, files, scopes, n - 1),
        },
{
    let earlier = baseline_rows(files, scopes, n - 1);
    let rows = baseline_rows(files, scopes, n);
    if baseline_row(files[n - 1], scopes) is Some {
        lemma_with_files_reads_prefix(baseline, earlier, rows, earlier.len() as int);
    }
}

/// After a baseline run over files with distinct names, the baseline of
/// each file that was written is the fingerprint that was written for it.
proof fn lemma_baseline_holds_rows(
    baseline: Map<Seq<char>, FingerprintView>,
    files: Seq<SourceFileView>,
    scopes: Seq<Seq<char>>,
    n: int,
    i: int,
)
    requires
        0 <= i < n <= files.len(),
        forall|a: int, b: int|
            0 <= a < b < files.len() ==> (#[trigger] files[a]).filename != (
            #[trigger] files[b]).filename,
        baseline_row(files[i], scopes) is Some,
    ensures
        baseline_after_upto(baseline, files, scopes, n).contains_key(files[i].filename),
        baseline_after_upto(baseline, files, scopes, n)[files[i].filename] == baseline_row(
            files[i],
            scopes,
        )->0.stored(),
    decreases n,
{
    lemma_baseline_after_step(baseline, files, scopes, n);
    if i < n - 1 {
        lemma_baseline_holds_rows(baseline, files, scopes, n - 1, i);
        assert(files[i].filename != files[n - 1].filename);
    }
}

/// Detection right after a baseline run over the same files, with distinct
/// names, reports nothing: a file whose baseline was written has the
/// modification time of its baseline, and a file that does not parse is
/// passed over. So it is after any number of baseline runs over the files.
pub proof fn detection_after_baseline_is_empty(
    db: DatabaseView,
    files: Seq<SourceFileView>,
    scopes: Seq<Seq<char>>,
)
    requires
        forall|a: int, b: int|
            0 <= a < b < files.len() ==> (#[trigger] files[a]).filename != (
            #[trigger] files[b]).filename,
    ensures
        detection(
            DatabaseView { baseline: baseline_after(db.baseline, files, scopes), ..db },
            files,
            scopes,
        ) == no_changes(),
{
    let after = DatabaseView { baseline: baseline_after(db.baseline, files, scopes), ..db };
    assert forall|i: int| 0 <= i < files.len() implies reported_change(
        after,
        #[trigger] files[i],
        scopes,
    ) is None by {
        if baseline_row(files[i], scopes) is Some {
            lemma_baseline_holds_rows(db.baseline, files, scopes, files.len() as int, i);
        }
    }
    lemma_quiet_detection(after, files, scopes, files.len() as int);
}

/// Where nothing is reported of any of the first `n` files, the report is
/// empty.
proof fn lemma_quiet_detection(
    db: DatabaseView,
    files: Seq<SourceFileView>,
    scopes: Seq<Seq<char>>,
    n: int,
)
    requires
        0 <= n <= files.len(),
        forall|i: int|
            0 <= i < files.len() ==> reported_change(db, #[trigger] files[i], scopes) is None,
    ensures
        detection_upto(db, files, scopes, n) == no_changes(),
    decreases n,
{
    if n > 0 {
        lemma_quiet_detection(db, files, scopes, n - 1);
        assert(reported_change(db, files[n - 1], scopes) is None);
    }
}

/// A second baseline run over the same files, with distinct names, leaves
/// the baseline as the first run left it.
pub proof fn second_baseline_changes_nothing(
    baseline: Map<Seq<char>, FingerprintView>,
    files: Seq<SourceFileView>,
    scopes: Seq<Seq<char>>,
)
    requires
        forall|a: int, b: int|
            0 <= a < b < files.len() ==> (#[trigger] files[a]).filename != (
            #[trigger] files[b]).filename,
    ensures
        baseline_after(baseline_after(baseline, files, scopes), files, scopes) == baseline_after(
            baseline,
            files,
            scopes,
        ),
{
    lemma_second_run(baseline, files, scopes, files.len() as int);
}

proof fn lemma_second_run(
    baseline: Map<Seq<char>, FingerprintView>,
    files: Seq<SourceFileView>,
    scopes: Seq<Seq<char>>,
    n: int,
)
    requires
        0 <= n <= files.len(),
        forall|a: int, b: int|
            0 <= a < b < files.len() ==> (#[trigger] files[a]).filename != (
            #[trigger] files[b]).filename,
    ensures
        baseline_after_upto(baseline_after(baseline, files, scopes), files, scopes, n)
            == baseline_after(baseline, files, scopes),
    decreases n,
{
    let first = baseline_after(baseline, files, scopes);
    if n > 0 {
        lemma_second_run(baseline, files, scopes, n - 1);
        lemma_baseline_after_step(first, files, scopes, n);
        if baseline_row(files[n - 1], scopes) is Some {
            lemma_baseline_holds_rows(baseline, files, scopes, files.len() as int, n - 1);
            let row = baseline_row(files[n - 1], scopes)->0;
            assert(first.insert(row.filename, row.stored()) =~= first);
        }
    }
}

/// The module checksum is taken over the lines outside definition bodies
/// alone: two sources with the same such lines, in the same order, have the
/// same module checksum, and the same module block where they have the same
/// number of lines.
pub proof fn module_block_reads_kept_lines(
    a: Seq<u8>,
    top_a: Seq<StatementView>,
    b: Seq<u8>,
    top_b: Seq<StatementView>,
)
    requires
        kept_lines(a, top_a) == kept_lines(b, top_b),
    ensures
        module_block(a, top_a).checksum == module_block(b, top_b).checksum,
        line_count(a) == line_count(b) ==> module_block(a, top_a) == module_block(b, top_b),
{
}

/// The module block does not read the bodies of definitions: two sources
/// with the same number of lines, the same lines in definition bodies, by
/// number, and the same text in every other line have the same module
/// block, whatever stands in the bodies and however the statements inside
/// them differ.
pub proof fn module_block_ignores_bodies(
    a: Seq<u8>,
    top_a: Seq<StatementView>,
    b: Seq<u8>,
    top_b: Seq<StatementView>,
)
    requires
        line_count(a) == line_count(b),
        forall|l: int|
            1 <= l <= line_count(a) ==> elided_in(a, top_a, top_a.len() as int, l) == elided_in(
                b,
                top_b,
                top_b.len() as int,
                l,
            ),
        forall|l: int|
            1 <= l <= line_count(a) && !elided_in(a, top_a, top_a.len() as int, l)
                ==> #[trigger] line_text(a, l) == line_text(b, l),
    ensures
        module_block(a, top_a) == module_block(b, top_b),
{
    lemma_kept_lines_agree(a, top_a, b, top_b, line_count(a));
}

proof fn lemma_kept_lines_agree(
    a: Seq<u8>,
    top_a: Seq<StatementView>,
    b: Seq<u8>,
    top_b: Seq<StatementView>,
    n: int,
)
    requires
        n <= line_count(a),
        forall|l: int|
            1 <= l <= line_count(a) ==> elided_in(a, top_a, top_a.len() as int, l) == elided_in(
                b,
                top_b,
                top_b.len() as int,
                l,
            ),
        forall|l: int|
            1 <= l <= line_count(a) && !elided_in(a, top_a, top_a.len() as int, l)
                ==> #[trigger] line_text(a, l) == line_text(b, l),
    ensures
        kept_lines_upto(a, top_a, n) == kept_lines_upto(b, top_b, n),
    decreases n,
{
    if n > 0 {
        lemma_kept_lines_agree(a, top_a, b, top_b, n - 1);
        if !elided_in(a, top_a, top_a.len() as int, n) {
            assert(line_text(a, n) == line_text(b, n));
        }
    }
}

/// The same of what `parse_module` returns: where two sources that parse
/// have the same number of lines, the same lines in definition bodies and
/// the same text in every other line, the module blocks that parsing gives
/// for them, the first of their blocks, are the same.
pub proof fn parsed_module_block_ignores_bodies(a: Seq<u8>, b: Seq<u8>)
    requires
        source_blocks(a) is Some,
        source_blocks(b) is Some,
        line_count(a) == line_count(b),
        forall|l: int|
            1 <= l <= line_count(a) ==> elided_in(
                a,
                source_outline(a)->0,
                source_outline(a)->0.len() as int,
                l,
            ) == elided_in(b, source_outline(b)->0, source_outline(b)->0.len() as int, l),
        forall|l: int|
            1 <= l <= line_count(a) && !elided_in(
                a,
                source_outline(a)->0,
                source_outline(a)->0.len() as int,
                l,
            ) ==> #[trigger] line_text(a, l) == line_text(b, l),
    ensures
        source_blocks(a)->0[0] == source_blocks(b)->0[0],
        source_blocks(a)->0[0].checksum == source_blocks(b)->0[0].checksum,
{
    module_block_ignores_bodies(a, source_outline(a)->0, b, source_outline(b)->0);
}

/// Where the signature of a definition ends depends on the lines of the
/// signature alone.
pub proof fn signature_end_reads_the_signature(
    a: Seq<u8>,
    b: Seq<u8>,
    line: int,
    last: int,
    depths: Depths,
)
    requires
        forall|l: int|
            line <= l <= signature_end_from(a, line, last, depths) ==> line_text(a, l)
                == line_text(b, l),
    ensures
        signature_end_from(b, line, last, depths) == signature_end_from(a, line, last, depths),
    decreases last - line,
{
    if line < last {
        let scan = scan_line(depths, line_text(a, line));
        lemma_signature_end_bounds(a, line, last, depths);
        assert(line_text(a, line) == line_text(b, line));
        if !closes_signature(scan) {
            lemma_signature_end_bounds(a, line + 1, last, scan.depths);
            signature_end_reads_the_signature(a, b, line + 1, last, scan.depths);
        }
    }
}

/// No signature line of an outermost definition found in `st` lies in the
/// body of an outermost definition of `top`.
pub open spec fn signatures_clear(s: Seq<u8>, st: StatementView, top: Seq<StatementView>) -> bool
    decreases st,
{
    match st.kind {
        StatementKind::Simple => true,
        StatementKind::Compound => all_signatures_clear(s, st.body, st.body.len() as int, top),
        _ => forall|l: int|
            st.first_line <= l <= signature_end(s, st.first_line, st.last_line) ==> !elided_in(
                s,
                top,
                top.len() as int,
                l,
            ),
    }
}

/// No signature line of an outermost definition found in the first `n`
/// statements lies in the body of an outermost definition of `top`.
pub open spec fn all_signatures_clear(
    s: Seq<u8>,
    list: Seq<StatementView>,
    n: int,
    top: Seq<StatementView>,
) -> bool
    decreases list, n,
{
    if n <= 0 || n > list.len() {
        true
    } else {
        all_signatures_clear(s, list, n - 1, top) && signatures_clear(s, list[n - 1], top)
    }
}

/// The two sources differ, inside the text, only in lines that lie in the
/// body of an outermost definition of `top`.
pub open spec fn differ_in_bodies_only(a: Seq<u8>, b: Seq<u8>, top: Seq<StatementView>) -> bool {
    forall|l: int|
        1 <= l <= line_count(a) && #[trigger] line_text(a, l) != line_text(b, l) ==> elided_in(
            a,
            top,
            top.len() as int,
            l,
        )
}

proof fn lemma_same_bodies(
    a: Seq<u8>,
    b: Seq<u8>,
    st: StatementView,
    top: Seq<StatementView>,
    line: int,
)
    requires
        well_placed(st, line_count(a)),
        signatures_clear(a, st, top),
        differ_in_bodies_only(a, b, top),
    ensures
        elided_by(b, st, line) == elided_by(a, st, line),
    decreases st,
{
    match st.kind {
        StatementKind::Simple => {},
        StatementKind::Compound => {
            lemma_same_bodies_in(a, b, st.body, st.body.len() as int, top, line);
        },
        _ => {
            lemma_signature_end_bounds(a, st.first_line, st.last_line, no_depth());
            assert forall|l: int|
                st.first_line <= l <= signature_end_from(
                    a,
                    st.first_line,
                    st.last_line,
                    no_depth(),
                ) implies line_text(a, l) == line_text(b, l) by {
                assert(1 <= l <= line_count(a));
                assert(!elided_in(a, top, top.len() as int, l));
            }
            signature_end_reads_the_signature(a, b, st.first_line, st.last_line, no_depth());
        },
    }
}

proof fn lemma_same_bodies_in(
    a: Seq<u8>,
    b: Seq<u8>,
    list: Seq<StatementView>,
    n: int,
    top: Seq<StatementView>,
    line: int,
)
    requires
        all_well_placed(list, n, line_count(a)),
        all_signatures_clear(a, list, n, top),
        differ_in_bodies_only(a, b, top),
    ensures
        elided_in(b, list, n, line) == elided_in(a, list, n, line),
    decreases list, n,
{
    if 0 < n <= list.len() {
        lemma_same_bodies_in(a, b, list, n - 1, top, line);
        lemma_same_bodies(a, b, list[n - 1], top, line);
    }
}

proof fn lemma_same_kept_lines(a: Seq<u8>, b: Seq<u8>, top: Seq<StatementView>, n: int)
    requires
        n <= line_count(a),
        all_well_placed(top, top.len() as int, line_count(a)),
        all_signatures_clear(a, top, top.len() as int, top),
        differ_in_bodies_only(a, b, top),
    ensures
        kept_lines_upto(b, top, n) == kept_lines_upto(a, top, n),
    decreases n,
{
    if n > 0 {
        lemma_same_kept_lines(a, b, top, n - 1);
        lemma_same_bodies_in(a, b, top, top.len() as int, top, n);
        if !elided_in(a, top, top.len() as int, n) {
            assert(line_text(a, n) == line_text(b, n));
        }
    }
}

/// Changing lines inside the bodies of definitions leaves the module block
/// as it is.
///
/// Of two sources with the same outline and the same number of lines, let
/// every line of the text in which they differ lie in the body of an
/// outermost definition, after its signature. Where the definitions lie
/// inside the text and no signature line lies in the body of another
/// definition, the two have the same module block, and so the same module
/// checksum.
pub proof fn body_edits_keep_the_module_block(a: Seq<u8>, b: Seq<u8>, top: Seq<StatementView>)
    requires
        line_count(a) == line_count(b),
        all_well_placed(top, top.len() as int, line_count(a)),
        all_signatures_clear(a, top, top.len() as int, top),
        differ_in_bodies_only(a, b, top),
    ensures
        module_block(a, top) == module_block(b, top),
{
    lemma_same_kept_lines(a, b, top, line_count(a));
}

/// The same of what `parse_module` returns: where two sources parse to the
/// same outline, have the same number of lines and differ only in lines
/// inside definition bodies, the module blocks that parsing gives for them,
/// the first of their blocks, are the same.
pub proof fn body_edits_keep_the_parsed_module_block(a: Seq<u8>, b: Seq<u8>)
    requires
        source_blocks(a) is Some,
        source_blocks(b) is Some,
        source_outline(a) == source_outline(b),
        line_count(a) == line_count(b),
        all_signatures_clear(
            a,
            source_outline(a)->0,
            source_outline(a)->0.len() as int,
            source_outline(a)->0,
        ),
        differ_in_bodies_only(a, b, source_outline(a)->0),
    ensures
        source_blocks(a)->0[0] == source_blocks(b)->0[0],
        source_blocks(a)->0[0].checksum == source_blocks(b)->0[0].checksum,
{
    body_edits_keep_the_module_block(a, b, source_outline(a)->0);
}

/// An edit inside the body of a definition is reported without the module
/// checksum.
///
/// Let a file be in reach and have the fingerprint of its old bytes as
/// baseline; let its old and its new bytes parse, have the same number of
/// lines, the same lines in definition bodies and the same text in every
/// other line; let its modification time and digest differ from the stored
/// ones. Let the block at `k`, which is not the module block, be the one
/// that changed: every block but it and the module block has its old
/// checksum, and its old checksum occurs nowhere among the new. Then the
/// module checksum is what it was, the file is reported, and what it has
/// lost is the old checksum of the block at `k` alone, which is not the
/// module checksum.
pub proof fn body_edit_spares_the_module_checksum(
    db: DatabaseView,
    old_bytes: Seq<u8>,
    old_mtime: u64,
    file: SourceFileView,
    scopes: Seq<Seq<char>>,
    k: int,
)
    requires
        in_reach(file, scopes),
        source_blocks(old_bytes) is Some,
        source_blocks(file.bytes()) is Some,
        baseline_of(db, file.filename) == Some(
            fingerprint_of(
                file.filename,
                old_bytes,
                old_mtime,
                source_blocks(old_bytes)->0,
            ).stored(),
        ),
        !mtime_unchanged(old_mtime, file.mtime),
        blake3_hex(file.bytes()) != blake3_hex(old_bytes),
        line_count(old_bytes) == line_count(file.bytes()),
        forall|l: int|
            1 <= l <= line_count(old_bytes) ==> elided_in(
                old_bytes,
                source_outline(old_bytes)->0,
                source_outline(old_bytes)->0.len() as int,
                l,
            ) == elided_in(
                file.bytes(),
                source_outline(file.bytes())->0,
                source_outline(file.bytes())->0.len() as int,
                l,
            ),
        forall|l: int|
            1 <= l <= line_count(old_bytes) && !elided_in(
                old_bytes,
                source_outline(old_bytes)->0,
                source_outline(old_bytes)->0.len() as int,
                l,
            ) ==> #[trigger] line_text(old_bytes, l) == line_text(file.bytes(), l),
        source_blocks(old_bytes)->0.len() == source_blocks(file.bytes())->0.len(),
        1 <= k < source_blocks(old_bytes)->0.len(),
        forall|i: int|
            1 <= i < source_blocks(old_bytes)->0.len() && i != k ==> (#[trigger] source_blocks(
                file.bytes(),
            )->0[i]).checksum == source_blocks(old_bytes)->0[i].checksum,
        forall|i: int|
            0 <= i < source_blocks(old_bytes)->0.len() ==> (#[trigger] source_blocks(
                file.bytes(),
            )->0[i]).checksum != source_blocks(old_bytes)->0[k].checksum,
    ensures
        source_blocks(file.bytes())->0[0].checksum == source_blocks(old_bytes)->0[0].checksum,
        reported_change(db, file, scopes) == Some(seq![source_blocks(old_bytes)->0[k].checksum]),
        !reported_change(db, file, scopes)->0.contains(source_blocks(old_bytes)->0[0].checksum),
        !reported_change(db, file, scopes)->0.contains(
            source_blocks(file.bytes())->0[k].checksum,
        ),
{
    parsed_module_block_ignores_bodies(old_bytes, file.bytes());
    edited_block_is_reported(db, old_bytes, old_mtime, file, scopes, k);
    let lost = seq![source_blocks(old_bytes)->0[k].checksum];
    assert(lost.len() == 1 && lost[0] == source_blocks(old_bytes)->0[k].checksum);
}

/// The decorators of a definition belong to its block and to its signature:
/// the block begins at the first decorator, its checksum is taken over the
/// lines from there on, and no line of the signature is left out of the
/// module skeleton on account of the definition itself.
pub proof fn decorators_count(s: Seq<u8>, st: StatementView, line: int)
    requires
        is_definition(st.kind),
        st.first_line <= line <= signature_end(s, st.first_line, st.last_line),
    ensures
        block_of(s, st).start_line == st.first_line,
        block_of(s, st).checksum == checksum_of(span_text(s, st.first_line, st.last_line)),
        !elided_by(s, st, line),
{
}

} // verus!
