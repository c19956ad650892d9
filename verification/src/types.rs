use vstd::prelude::*;

verus! {

/// What kind of source region a block is.
#[derive(Clone, Copy, PartialEq, Eq, Structural, Debug, Hash)]
pub enum BlockType {
    Module,
    Class,
    Function,
    AsyncFunction,
}

impl BlockType {
    /// The name under which the kind is recorded.
    pub open spec fn label(self) -> Seq<char> {
        match self {
            BlockType::Module => "module"@,
            BlockType::Class => "class"@,
            BlockType::Function => "function"@,
            BlockType::AsyncFunction => "async_function"@,
        }
    }

    /// The name under which the kind is recorded.
    pub fn as_str(&self) -> (name: &'static str)
        ensures
            name@ == self.label(),
    {
        match self {
            BlockType::Module => "module",
            BlockType::Class => "class",
            BlockType::Function => "function",
            BlockType::AsyncFunction => "async_function",
        }
    }
}

/// The name of the block that stands for the whole file.
pub open spec fn module_name() -> Seq<char> {
    "<module>"@
}

/// A contiguous source region with a checksum. Lines are 1-indexed and
/// inclusive.
#[derive(Clone, Debug, PartialEq, Eq)]
pub struct Block {
    pub name: String,
    pub block_type: BlockType,
    pub start_line: usize,
    pub end_line: usize,
    pub body_start_line: usize,
    pub checksum: i32,
}

/// What a block says.
pub ghost struct BlockView {
    pub name: Seq<char>,
    pub block_type: BlockType,
    pub start_line: int,
    pub end_line: int,
    pub body_start_line: int,
    pub checksum: i32,
}

impl View for Block {
    type V = BlockView;

    open spec fn view(&self) -> BlockView {
        BlockView {
            name: self.name@,
            block_type: self.block_type,
            start_line: self.start_line as int,
            end_line: self.end_line as int,
            body_start_line: self.body_start_line as int,
            checksum: self.checksum,
        }
    }
}

impl BlockView {
    /// The body lies inside the block.
    pub open spec fn well_formed(self) -> bool {
        1 <= self.start_line <= self.body_start_line <= self.end_line
    }
}

impl Block {
    /// A copy of the block.
    pub fn duplicate(&self) -> (copy: Block)
        ensures
            copy@ == self@,
    {
        Block {
            name: self.name.clone(),
            block_type: self.block_type,
            start_line: self.start_line,
            end_line: self.end_line,
            body_start_line: self.body_start_line,
            checksum: self.checksum,
        }
    }
}

/// The views of a list of blocks.
pub open spec fn block_views(blocks: Seq<Block>) -> Seq<BlockView> {
    blocks.map_values(|b: Block| b@)
}

/// The checksums of a list of blocks, in the order of the blocks.
pub open spec fn checksums_of(blocks: Seq<BlockView>) -> Seq<i32> {
    blocks.map_values(|b: BlockView| b.checksum)
}

/// The recorded state of one file. `mtime` counts nanoseconds since the
/// Unix epoch.
#[derive(Clone, Debug, PartialEq, Eq)]
pub struct Fingerprint {
    pub filename: String,
    pub checksums: Vec<i32>,
    pub file_hash: String,
    pub mtime: u64,
    pub blocks: Option<Vec<Block>>,
}

/// What a fingerprint says.
pub ghost struct FingerprintView {
    pub filename: Seq<char>,
    pub checksums: Seq<i32>,
    pub file_hash: Seq<char>,
    pub mtime: u64,
    pub blocks: Option<Seq<BlockView>>,
}

impl View for Fingerprint {
    type V = FingerprintView;

    open spec fn view(&self) -> FingerprintView {
        FingerprintView {
            filename: self.filename@,
            checksums: self.checksums@,
            file_hash: self.file_hash@,
            mtime: self.mtime,
            blocks: match self.blocks {
                Some(blocks) => Some(block_views(blocks@)),
                None => None,
            },
        }
    }
}

impl FingerprintView {
    /// Where the blocks are kept, there is one checksum per block, in order.
    pub open spec fn well_formed(self) -> bool {
        self.blocks matches Some(blocks) ==> self.checksums == checksums_of(blocks)
    }

    /// The same state without the block list.
    pub open spec fn stored(self) -> FingerprintView {
        FingerprintView { blocks: None, ..self }
    }
}

/// A copy of a checksum list.
pub fn copy_checksums(checksums: &Vec<i32>) -> (copy: Vec<i32>)
    ensures
        copy@ == checksums@,
{
    let mut copy: Vec<i32> = Vec::new();
    let mut i: usize = 0;
    while i < checksums.len()
        invariant
            i <= checksums.len(),
            copy@ == checksums@.take(i as int),
        decreases checksums.len() - i,
    {
        copy.push(checksums[i]);
        assert(checksums@.take(i + 1) == checksums@.take(i as int).push(checksums@[i as int]));
        i += 1;
    }
    assert(checksums@.take(checksums.len() as int) == checksums@);
    copy
}

/// A copy of a block list.
pub fn copy_blocks(blocks: &Vec<Block>) -> (copy: Vec<Block>)
    ensures
        block_views(copy@) == block_views(blocks@),
{
    let mut copy: Vec<Block> = Vec::new();
    let mut i: usize = 0;
    while i < blocks.len()
        invariant
            i <= blocks.len(),
            copy@.len() == i,
            forall|k: int| 0 <= k < i ==> (#[trigger] copy@[k])@ == blocks@[k]@,
        decreases blocks.len() - i,
    {
        copy.push(blocks[i].duplicate());
        i += 1;
    }
    assert(block_views(copy@) =~= block_views(blocks@));
    copy
}

impl Fingerprint {
    /// A copy of the fingerprint.
    pub fn duplicate(&self) -> (copy: Fingerprint)
        ensures
            copy@ == self@,
    {
        let blocks: Option<Vec<Block>> = match &self.blocks {
            Some(blocks) => Some(copy_blocks(blocks)),
            None => None,
        };
        Fingerprint {
            filename: self.filename.clone(),
            checksums: copy_checksums(&self.checksums),
            file_hash: self.file_hash.clone(),
            mtime: self.mtime,
            blocks,
        }
    }
}

/// A test outcome with the files the test depended on. `duration` counts
/// nanoseconds.
#[derive(Clone, Debug, PartialEq, Eq)]
pub struct TestExecution {
    pub test_name: String,
    pub duration: u64,
    pub failed: bool,
    pub fingerprints: Vec<Fingerprint>,
}

/// The old checksums of one file that are gone from it.
#[derive(Clone, Debug, PartialEq, Eq)]
pub struct ChangedBlocks {
    pub filename: String,
    pub checksums: Vec<i32>,
}

/// What a detection run found: the files whose content departs from the
/// baseline, in the order in which they were examined, and for each of them
/// that lost checksums the checksums it lost.
#[derive(Clone, Debug, PartialEq, Eq)]
pub struct ChangedFiles {
    pub modified: Vec<String>,
    pub changed_blocks: Vec<ChangedBlocks>,
}

/// A file as it was found: its name, its modification time in nanoseconds
/// since the Unix epoch, and its content.
#[derive(Clone, Debug, PartialEq, Eq)]
pub struct SourceFile {
    pub filename: String,
    pub mtime: u64,
    pub content: String,
}

/// What a file as it was found says.
pub ghost struct SourceFileView {
    pub filename: Seq<char>,
    pub mtime: u64,
    pub content: Seq<char>,
}

impl SourceFileView {
    /// The content as UTF-8 bytes.
    pub open spec fn bytes(self) -> Seq<u8> {
        vstd::utf8::encode_utf8(self.content)
    }
}

impl View for SourceFile {
    type V = SourceFileView;

    open spec fn view(&self) -> SourceFileView {
        SourceFileView { filename: self.filename@, mtime: self.mtime, content: self.content@ }
    }
}

/// The views of a list of files.
pub open spec fn source_views(files: Seq<SourceFile>) -> Seq<SourceFileView> {
    files.map_values(|file: SourceFile| file@)
}

impl View for ChangedBlocks {
    type V = (Seq<char>, Seq<i32>);

    open spec fn view(&self) -> (Seq<char>, Seq<i32>) {
        (self.filename@, self.checksums@)
    }
}

/// The views of a list of lost checksums by file.
pub open spec fn changed_views(changed: Seq<ChangedBlocks>) -> Seq<(Seq<char>, Seq<i32>)> {
    changed.map_values(|entry: ChangedBlocks| entry@)
}

/// The texts of a list of strings.
pub open spec fn texts(names: Seq<String>) -> Seq<Seq<char>> {
    names.map_values(|s: String| s@)
}

/// What a detection report says.
pub ghost struct ChangedFilesView {
    pub modified: Seq<Seq<char>>,
    pub changed_blocks: Seq<(Seq<char>, Seq<i32>)>,
}

impl View for ChangedFiles {
    type V = ChangedFilesView;

    open spec fn view(&self) -> ChangedFilesView {
        ChangedFilesView {
            modified: texts(self.modified@),
            changed_blocks: changed_views(self.changed_blocks@),
        }
    }
}

/// The lines of one file that ran during a test.
#[derive(Clone, Debug, PartialEq, Eq)]
pub struct FileCoverage {
    pub filename: String,
    pub lines: Vec<usize>,
}

/// What a coverage entry says.
pub ghost struct FileCoverageView {
    pub filename: Seq<char>,
    pub lines: Seq<usize>,
}

impl View for FileCoverage {
    type V = FileCoverageView;

    open spec fn view(&self) -> FileCoverageView {
        FileCoverageView { filename: self.filename@, lines: self.lines@ }
    }
}

/// The views of a list of coverage entries.
pub open spec fn coverage_views(coverage: Seq<FileCoverage>) -> Seq<FileCoverageView> {
    coverage.map_values(|entry: FileCoverage| entry@)
}

/// Why an operation of the engine failed.
#[derive(Clone, Debug, PartialEq, Eq)]
pub enum EngineError {
    /// The source could not be parsed.
    Parse(String),
    /// The store could not be read.
    Store(String),
    /// Data does not have the shape that the engine relies on.
    Invariant(String),
}

impl EngineError {
    /// The text that came with the failure.
    pub fn message(&self) -> (text: &String)
        ensures
            *text == match *self {
                EngineError::Parse(m) => m,
                EngineError::Store(m) => m,
                EngineError::Invariant(m) => m,
            },
    {
        match self {
            EngineError::Parse(m) => m,
            EngineError::Store(m) => m,
            EngineError::Invariant(m) => m,
        }
    }
}

} // verus!
