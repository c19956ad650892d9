use crate::database::{fingerprint_views, with_files, DatabaseView, TestmonDatabase};
use crate::fingerprint::{
    blake3_hex, block_checksums, calculate_fingerprint, checksum_change, compare_checksums,
    hash_hex, mtime_unchanged, same_mtime, source_fingerprint,
};
use crate::parser::{parse_module, source_blocks, source_tree};
use crate::paths::{is_project_source, is_source_in_scope};
use crate::table::same_text;
use crate::types::{
    checksums_of, source_views, texts, ChangedBlocks, ChangedFiles, ChangedFilesView, EngineError,
    Fingerprint, FingerprintView, SourceFile, SourceFileView,
};
use vstd::prelude::*;
use vstd::utf8::encode_utf8;

verus! {

/// The baseline of a file, if one is recorded.
pub open spec fn baseline_of(db: DatabaseView, filename: Seq<char>) -> Option<FingerprintView> {
    if db.baseline.contains_key(filename) {
        Some(db.baseline[filename])
    } else {
        None
    }
}

/// The checksums of the blocks of a source, in order; nothing where the
/// source has no blocks.
pub open spec fn source_checksums(bytes: Seq<u8>) -> Option<Seq<i32>> {
    match source_blocks(bytes) {
        Some(blocks) => Some(checksums_of(blocks)),
        None => None,
    }
}

/// The file has a baseline, and neither its modification time nor the
/// digest of its bytes shows it unchanged: its source is parsed.
pub open spec fn needs_parse(
    baseline: Option<FingerprintView>,
    mtime: u64,
    file_hash: Seq<char>,
) -> bool {
    baseline matches Some(stored) && !mtime_unchanged(stored.mtime, mtime) && file_hash
        != stored.file_hash
}

/// What is reported of one file: nothing, or the old checksums that it has
/// lost.
///
/// A file without baseline is not reported. A file whose modification time
/// is within a millisecond of the stored one is unchanged. So is one whose
/// bytes have the stored digest, and one whose block checksums equal the
/// stored ones position by position. A file whose source has no blocks,
/// because it does not parse, is passed over.
pub open spec fn file_change(
    baseline: Option<FingerprintView>,
    mtime: u64,
    file_hash: Seq<char>,
    checksums: Option<Seq<i32>>,
) -> Option<Seq<i32>> {
    if needs_parse(baseline, mtime, file_hash) {
        match checksums {
            Some(current) => checksum_change(baseline->0.checksums, current),
            None => None,
        }
    } else {
        None
    }
}

/// What is reported of a file against the baseline that the store holds
/// for it.
pub open spec fn change_of(db: DatabaseView, file: SourceFileView) -> Option<Seq<i32>> {
    file_change(
        baseline_of(db, file.filename),
        file.mtime,
        blake3_hex(file.bytes()),
        source_checksums(file.bytes()),
    )
}

/// The source of the file has to be parsed to compare it with the
/// baseline that the store holds for it.
pub open spec fn is_parsed(db: DatabaseView, file: SourceFileView) -> bool {
    needs_parse(baseline_of(db, file.filename), file.mtime, blake3_hex(file.bytes()))
}

/// The file belongs to the sources that a run looks at: it is a Python
/// source and lies under one of the scopes.
pub open spec fn in_reach(file: SourceFileView, scopes: Seq<Seq<char>>) -> bool {
    is_project_source(encode_utf8(file.filename), scopes)
}

/// What is reported of one file of a run: nothing of a file out of reach.
pub open spec fn reported_change(
    db: DatabaseView,
    file: SourceFileView,
    scopes: Seq<Seq<char>>,
) -> Option<Seq<i32>> {
    if in_reach(file, scopes) {
        change_of(db, file)
    } else {
        None
    }
}

/// The report that names no file.
pub open spec fn no_changes() -> ChangedFilesView {
    ChangedFilesView { modified: Seq::empty(), changed_blocks: Seq::empty() }
}

/// The report with one more file in it. Lost checksums are listed only
/// where there are any.
pub open spec fn with_change(
    report: ChangedFilesView,
    filename: Seq<char>,
    lost: Seq<i32>,
) -> ChangedFilesView {
    ChangedFilesView {
        modified: report.modified.push(filename),
        changed_blocks: if lost.len() > 0 {
            report.changed_blocks.push((filename, lost))
        } else {
            report.changed_blocks
        },
    }
}

/// What detection reports of the first `n` files.
pub open spec fn detection_upto(
    db: DatabaseView,
    files: Seq<SourceFileView>,
    scopes: Seq<Seq<char>>,
    n: int,
) -> ChangedFilesView
    decreases n,
{
    if n <= 0 {
        no_changes()
    } else {
        let earlier = detection_upto(db, files, scopes, n - 1);
        match reported_change(db, files[n - 1], scopes) {
            Some(lost) => with_change(earlier, files[n - 1].filename, lost),
            None => earlier,
        }
    }
}

/// What detection reports of the files: each file in reach that has changed
/// against its baseline, in the order given, with the old checksums that it
/// has lost.
pub open spec fn detection(
    db: DatabaseView,
    files: Seq<SourceFileView>,
    scopes: Seq<Seq<char>>,
) -> ChangedFilesView {
    detection_upto(db, files, scopes, files.len() as int)
}

/// The view of what a comparison returns.
pub open spec fn lost_view(change: Option<Vec<i32>>) -> Option<Seq<i32>> {
    match change {
        Some(lost) => Some(lost@),
        None => None,
    }
}

/// The view of a baseline that may be missing.
pub open spec fn baseline_view(baseline: Option<&Fingerprint>) -> Option<FingerprintView> {
    match baseline {
        Some(stored) => Some(stored@),
        None => None,
    }
}

/// The view of a checksum list that may be missing.
pub open spec fn checksums_view(checksums: Option<&Vec<i32>>) -> Option<Seq<i32>> {
    match checksums {
        Some(list) => Some(list@),
        None => None,
    }
}

/// Decides what is reported of one file from its baseline, its
/// modification time, the digest of its bytes and the checksums of its
/// blocks, where it has any.
pub fn classify_change(
    baseline: Option<&Fingerprint>,
    mtime: u64,
    file_hash: &str,
    checksums: Option<&Vec<i32>>,
) -> (change: Option<Vec<i32>>)
    ensures
        lost_view(change) == file_change(
            baseline_view(baseline),
            mtime,
            file_hash@,
            checksums_view(checksums),
        ),
{
    match baseline {
        None => None,
        Some(stored) => {
            if same_mtime(stored.mtime, mtime) || same_text(file_hash, stored.file_hash.as_str()) {
                None
            } else {
                match checksums {
                    None => None,
                    Some(current) => compare_checksums(
                        stored.checksums.as_slice(),
                        current.as_slice(),
                    ),
                }
            }
        },
    }
}

/// Compares a file with its baseline, the cheap tests first: the baseline's
/// presence, the modification time, the digest of the bytes, and only then
/// the block checksums, for which the source is parsed.
///
/// Gives what is reported of the file. Fails exactly when the source has to
/// be parsed and has no blocks, with the error that `parse_module` gives.
pub fn check_file_changed(db: &TestmonDatabase, file: &SourceFile) -> (result: Result<
    Option<Vec<i32>>,
    EngineError,
>)
    ensures
        match result {
            Ok(change) => {
                &&& lost_view(change) == change_of(db@, file@)
                &&& is_parsed(db@, file@) ==> source_blocks(file@.bytes()) is Some
            },
            Err(e) => {
                &&& is_parsed(db@, file@)
                &&& source_blocks(file@.bytes()) is None
                &&& e is Parse <==> source_tree(file@.bytes()) is None
                &&& e is Invariant <==> source_tree(file@.bytes()) is Some
            },
        },
{
    let stored: Fingerprint = match db.get_baseline_fingerprint(file.filename.as_str()) {
        Some(fp) => fp,
        None => {
            return Ok(None);
        },
    };
    if same_mtime(stored.mtime, file.mtime) {
        return Ok(None);
    }
    let hash: String = hash_hex(file.content.as_str().as_bytes());
    if same_text(hash.as_str(), stored.file_hash.as_str()) {
        return Ok(None);
    }
    match parse_module(file.content.as_str()) {
        Err(e) => Err(e),
        Ok(blocks) => {
            let current: Vec<i32> = block_checksums(&blocks);
            Ok(classify_change(Some(&stored), file.mtime, hash.as_str(), Some(&current)))
        },
    }
}

/// Compares each file in reach with its baseline and reports the files
/// that changed, in the order given, with the old checksums that each has
/// lost. A file whose source does not parse is passed over.
pub fn detect_changes(
    db: &TestmonDatabase,
    files: &Vec<SourceFile>,
    scope_paths: &Vec<String>,
) -> (changes: ChangedFiles)
    ensures
        changes@ == detection(db@, source_views(files@), texts(scope_paths@)),
{
    let mut changes = ChangedFiles { modified: Vec::new(), changed_blocks: Vec::new() };
    let mut i: usize = 0;
    assert(changes@.modified =~= no_changes().modified);
    assert(changes@.changed_blocks =~= no_changes().changed_blocks);
    while i < files.len()
        invariant
            i <= files@.len(),
            changes@ == detection_upto(
                db@,
                source_views(files@),
                texts(scope_paths@),
                i as int,
            ),
        decreases files.len() - i,
    {
        let file: &SourceFile = &files[i];
        assert(source_views(files@)[i as int] == file@);
        let ghost before = changes@;
        if is_source_in_scope(file.filename.as_str(), scope_paths) {
            match check_file_changed(db, file) {
                Ok(Some(lost)) => {
                    changes.modified.push(file.filename.clone());
                    if lost.len() > 0 {
                        changes.changed_blocks.push(
                            ChangedBlocks { filename: file.filename.clone(), checksums: lost },
                        );
                    }
                    proof {
                        let expected = with_change(before, file.filename@, lost@);
                        assert(changes@.modified =~= expected.modified);
                        assert(changes@.changed_blocks =~= expected.changed_blocks);
                    }
                },
                _ => {},
            }
        }
        i += 1;
    }
    changes
}

/// The fingerprint that a baseline run writes for a file: the fingerprint
/// of the file, where the file is in reach and its source has blocks.
pub open spec fn baseline_row(file: SourceFileView, scopes: Seq<Seq<char>>) -> Option<
    FingerprintView,
> {
    if in_reach(file, scopes) {
        source_fingerprint(file.filename, file.bytes(), file.mtime)
    } else {
        None
    }
}

/// The fingerprints that a baseline run writes for the first `n` files, in
/// the order of the files.
pub open spec fn baseline_rows(files: Seq<SourceFileView>, scopes: Seq<Seq<char>>, n: int) -> Seq<
    FingerprintView,
>
    decreases n,
{
    if n <= 0 {
        Seq::empty()
    } else {
        let earlier = baseline_rows(files, scopes, n - 1);
        match baseline_row(files[n - 1], scopes) {
            Some(row) => earlier.push(row),
            None => earlier,
        }
    }
}

/// The baseline after a baseline run over the files.
pub open spec fn baseline_after(
    baseline: Map<Seq<char>, FingerprintView>,
    files: Seq<SourceFileView>,
    scopes: Seq<Seq<char>>,
) -> Map<Seq<char>, FingerprintView> {
    let rows = baseline_rows(files, scopes, files.len() as int);
    with_files(baseline, rows, rows.len() as int)
}

/// Fingerprints every file in reach and writes the fingerprints as the new
/// baseline of their files, in one batch. A file whose source does not
/// parse is passed over. Returns how many fingerprints were written.
pub fn save_baseline(
    db: &mut TestmonDatabase,
    files: &Vec<SourceFile>,
    scope_paths: &Vec<String>,
) -> (count: usize)
    ensures
        final(db)@.baseline == baseline_after(
            old(db)@.baseline,
            source_views(files@),
            texts(scope_paths@),
        ),
        count == baseline_rows(
            source_views(files@),
            texts(scope_paths@),
            files@.len() as int,
        ).len(),
        final(db)@.tests == old(db)@.tests,
        final(db)@.path == old(db)@.path,
{
    let mut valid: Vec<Fingerprint> = Vec::new();
    let mut i: usize = 0;
    assert(fingerprint_views(valid@) =~= baseline_rows(
        source_views(files@),
        texts(scope_paths@),
        0,
    ));
    while i < files.len()
        invariant
            i <= files@.len(),
            fingerprint_views(valid@) == baseline_rows(
                source_views(files@),
                texts(scope_paths@),
                i as int,
            ),
        decreases files.len() - i,
    {
        let file: &SourceFile = &files[i];
        assert(source_views(files@)[i as int] == file@);
        let ghost rows = fingerprint_views(valid@);
        if is_source_in_scope(file.filename.as_str(), scope_paths) {
            if let Ok(fp) = calculate_fingerprint(
                file.filename.as_str(),
                file.content.as_str(),
                file.mtime,
            ) {
                valid.push(fp);
                assert(fingerprint_views(valid@) =~= rows.push(fp@));
            }
        }
        i += 1;
    }
    db.save_baseline_fingerprints_batch(valid)
}

} // verus!
