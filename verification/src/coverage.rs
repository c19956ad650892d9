use crate::database::fingerprint_views;
use crate::fingerprint::{block_checksums, calculate_fingerprint, source_fingerprint};
use crate::paths::{admitted, should_process_file};
use crate::table::same_text;
use crate::types::{
    block_views, checksums_of, coverage_views, source_views, texts, Block, BlockView, FileCoverage,
    FileCoverageView, Fingerprint, FingerprintView, SourceFile, SourceFileView,
};
use vstd::prelude::*;
use vstd::string::StringSliceAdditionalSpecFns;
use vstd::utf8::encode_utf8;

verus! {

/// The line lies in the part of the block that runs when the block is
/// entered: from the start of its body to its end. The lines of decorators
/// and of a function's header run when the definition is made, not when the
/// function is called, and do not count.
pub open spec fn covers(block: BlockView, line: int) -> bool {
    block.body_start_line <= line <= block.end_line
}

/// One of the lines that ran lies in the block's body.
pub open spec fn is_executed(block: BlockView, lines: Seq<usize>) -> bool {
    exists|i: int| 0 <= i < lines.len() && covers(block, #[trigger] lines[i] as int)
}

/// The blocks that ran, in source order.
pub open spec fn executed_blocks(blocks: Seq<BlockView>, lines: Seq<usize>) -> Seq<BlockView> {
    blocks.filter(|b: BlockView| is_executed(b, lines))
}

fn block_executed(block: &Block, executed_lines: &Vec<usize>) -> (ran: bool)
    ensures
        ran == is_executed(block@, executed_lines@),
{
    let mut i: usize = 0;
    while i < executed_lines.len()
        invariant
            i <= executed_lines@.len(),
            forall|k: int| 0 <= k < i ==> !covers(block@, #[trigger] executed_lines@[k] as int),
        decreases executed_lines.len() - i,
    {
        let line: usize = executed_lines[i];
        if block.body_start_line <= line && line <= block.end_line {
            return true;
        }
        i += 1;
    }
    false
}

/// Keeps the blocks in whose body at least one of the executed lines lies.
pub fn filter_executed_blocks(blocks: &Vec<Block>, executed_lines: &Vec<usize>) -> (executed: Vec<
    Block,
>)
    ensures
        block_views(executed@) == executed_blocks(block_views(blocks@), executed_lines@),
{
    let ghost ran = |b: BlockView| is_executed(b, executed_lines@);
    let ghost all = block_views(blocks@);
    let mut executed: Vec<Block> = Vec::new();
    let mut i: usize = 0;
    proof {
        reveal(Seq::filter);
        assert(all.take(0) =~= Seq::<BlockView>::empty());
        assert(block_views(executed@) =~= all.take(0).filter(ran));
    }
    while i < blocks.len()
        invariant
            i <= blocks@.len(),
            all == block_views(blocks@),
            ran == |b: BlockView| is_executed(b, executed_lines@),
            block_views(executed@) == all.take(i as int).filter(ran),
        decreases blocks.len() - i,
    {
        let ghost kept = block_views(executed@);
        proof {
            reveal(Seq::filter);
            let next = all.take(i + 1);
            assert(next.drop_last() =~= all.take(i as int));
            assert(next.last() == blocks@[i as int]@);
            assert(ran(blocks@[i as int]@) == is_executed(blocks@[i as int]@, executed_lines@));
            assert(next.filter(ran) == if ran(next.last()) {
                next.drop_last().filter(ran).push(next.last())
            } else {
                next.drop_last().filter(ran)
            });
        }
        if block_executed(&blocks[i], executed_lines) {
            executed.push(blocks[i].duplicate());
            assert(block_views(executed@) =~= kept.push(blocks@[i as int]@));
        }
        i += 1;
    }
    assert(all.take(blocks@.len() as int) =~= all);
    executed
}

/// What a test depended on in a file: nothing where no block of the file
/// ran; otherwise the file's fingerprint with the checksums of the blocks
/// that ran, in source order, and without the block list. A fingerprint that
/// has no block list is kept whole.
pub open spec fn reduced(fp: FingerprintView, lines: Seq<usize>) -> Option<FingerprintView> {
    match fp.blocks {
        None => Some(fp),
        Some(blocks) => {
            let executed = executed_blocks(blocks, lines);
            if executed.len() == 0 {
                None
            } else {
                Some(FingerprintView { checksums: checksums_of(executed), blocks: None, ..fp })
            }
        },
    }
}

/// The view of a fingerprint that may be missing.
pub open spec fn fingerprint_option_view(fp: Option<Fingerprint>) -> Option<FingerprintView> {
    match fp {
        Some(fp) => Some(fp@),
        None => None,
    }
}

/// Reduces a fingerprint to the blocks that ran.
pub fn reduce_fingerprint(fp: Fingerprint, executed_lines: &Vec<usize>) -> (result: Option<
    Fingerprint,
>)
    ensures
        fingerprint_option_view(result) == reduced(fp@, executed_lines@),
{
    let Fingerprint { filename, checksums, file_hash, mtime, blocks } = fp;
    match blocks {
        None => Some(Fingerprint { filename, checksums, file_hash, mtime, blocks: None }),
        Some(blocks) => {
            let executed: Vec<Block> = filter_executed_blocks(&blocks, executed_lines);
            if executed.len() == 0 {
                None
            } else {
                Some(
                    Fingerprint {
                        filename,
                        checksums: block_checksums(&executed),
                        file_hash,
                        mtime,
                        blocks: None,
                    },
                )
            }
        },
    }
}

/// The position of the first file named `name` at or after `from`.
pub open spec fn source_index(files: Seq<SourceFileView>, name: Seq<char>, from: int) -> Option<
    int,
>
    decreases files.len() - from,
{
    if from < 0 || from >= files.len() {
        None
    } else if files[from].filename == name {
        Some(from)
    } else {
        source_index(files, name, from + 1)
    }
}

fn find_source(files: &Vec<SourceFile>, name: &str) -> (found: Option<usize>)
    ensures
        match found {
            Some(i) => source_index(source_views(files@), name@, 0) == Some(i as int) && i
                < files@.len(),
            None => source_index(source_views(files@), name@, 0) is None,
        },
{
    let ghost views = source_views(files@);
    let mut i: usize = 0;
    while i < files.len()
        invariant
            i <= files@.len(),
            views == source_views(files@),
            source_index(views, name@, 0) == source_index(views, name@, i as int),
        decreases files.len() - i,
    {
        assert(views[i as int] == files@[i as int]@);
        if same_text(files[i].filename.as_str(), name) {
            return Some(i);
        }
        i += 1;
    }
    None
}

/// What one coverage entry contributes: nothing where the file is not
/// admitted, was not read or has no blocks because it does not parse;
/// otherwise its fingerprint reduced to the blocks that ran.
pub open spec fn dependency(
    entry: FileCoverageView,
    files: Seq<SourceFileView>,
    project_root: Seq<u8>,
    test_file: Seq<u8>,
    scopes: Seq<Seq<char>>,
) -> Option<FingerprintView> {
    if !admitted(encode_utf8(entry.filename), project_root, test_file, scopes) {
        None
    } else {
        match source_index(files, entry.filename, 0) {
            Some(at) => match source_fingerprint(
                entry.filename,
                files[at].bytes(),
                files[at].mtime,
            ) {
                Some(fp) => reduced(fp, entry.lines),
                None => None,
            },
            None => None,
        }
    }
}

/// The dependencies that the first `n` coverage entries contribute, in the
/// order of the entries.
pub open spec fn dependencies_upto(
    coverage: Seq<FileCoverageView>,
    files: Seq<SourceFileView>,
    project_root: Seq<u8>,
    test_file: Seq<u8>,
    scopes: Seq<Seq<char>>,
    n: int,
) -> Seq<FingerprintView>
    decreases n,
{
    if n <= 0 {
        Seq::empty()
    } else {
        let earlier = dependencies_upto(coverage, files, project_root, test_file, scopes, n - 1);
        match dependency(coverage[n - 1], files, project_root, test_file, scopes) {
            Some(fp) => earlier.push(fp),
            None => earlier,
        }
    }
}

/// The dependencies that the coverage entries contribute.
pub open spec fn dependencies(
    coverage: Seq<FileCoverageView>,
    files: Seq<SourceFileView>,
    project_root: Seq<u8>,
    test_file: Seq<u8>,
    scopes: Seq<Seq<char>>,
) -> Seq<FingerprintView> {
    dependencies_upto(coverage, files, project_root, test_file, scopes, coverage.len() as int)
}

/// Turns the lines that ran during a test into the test's dependencies: for
/// each covered file that is admitted, was read and parses, the fingerprint
/// of the file reduced to the blocks that ran, in the order of the coverage
/// entries. `files` holds the files that could be read; of two with one
/// name the first counts.
pub fn process_coverage_data(
    coverage_data: &Vec<FileCoverage>,
    files: &Vec<SourceFile>,
    project_root: &str,
    test_file: &str,
    scope_paths: &Vec<String>,
) -> (fingerprints: Vec<Fingerprint>)
    ensures
        fingerprint_views(fingerprints@) == dependencies(
            coverage_views(coverage_data@),
            source_views(files@),
            project_root.spec_bytes(),
            test_file.spec_bytes(),
            texts(scope_paths@),
        ),
{
    let ghost root = project_root.spec_bytes();
    let ghost test = test_file.spec_bytes();
    let ghost covered = coverage_views(coverage_data@);
    let ghost sources = source_views(files@);
    let ghost scopes = texts(scope_paths@);
    let mut fingerprints: Vec<Fingerprint> = Vec::new();
    let mut i: usize = 0;
    assert(fingerprint_views(fingerprints@) =~= Seq::<FingerprintView>::empty());
    while i < coverage_data.len()
        invariant
            i <= coverage_data@.len(),
            root == project_root.spec_bytes(),
            test == test_file.spec_bytes(),
            covered == coverage_views(coverage_data@),
            sources == source_views(files@),
            scopes == texts(scope_paths@),
            fingerprint_views(fingerprints@) == dependencies_upto(
                covered,
                sources,
                root,
                test,
                scopes,
                i as int,
            ),
        decreases coverage_data.len() - i,
    {
        let entry: &FileCoverage = &coverage_data[i];
        assert(covered[i as int] == entry@);
        let ghost rows = fingerprint_views(fingerprints@);
        let mut found: Option<Fingerprint> = None;
        if should_process_file(entry.filename.as_str(), project_root, test_file, scope_paths) {
            if let Some(at) = find_source(files, entry.filename.as_str()) {
                let file: &SourceFile = &files[at];
                assert(sources[at as int] == file@);
                if let Ok(fp) = calculate_fingerprint(
                    entry.filename.as_str(),
                    file.content.as_str(),
                    file.mtime,
                ) {
                    found = reduce_fingerprint(fp, &entry.lines);
                }
            }
        }
        assert(fingerprint_option_view(found) == dependency(entry@, sources, root, test, scopes));
        if let Some(fp) = found {
            fingerprints.push(fp);
            assert(fingerprint_views(fingerprints@) =~= rows.push(fp@));
        }
        i += 1;
    }
    fingerprints
}

} // verus!
