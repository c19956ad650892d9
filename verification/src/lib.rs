//! A change-detection engine for test selection.
//!
//! The engine cuts a Python source into blocks (the module, its classes and
//! its functions), gives each block a checksum, records which blocks each
//! test ran, and later tells which recorded blocks are gone and which tests
//! depended on them.
//!
//! - `checksum`, `text`, `signature`: checksums, lines, and where the
//!   signature of a definition ends.
//! - `syntax`, `parser`, `outline`, `extract`: from a source to its syntax
//!   tree, its outline in lines, and its blocks.
//! - `fingerprint`, `changes`: the fingerprint of a file, and the comparison
//!   of files with their baseline.
//! - `paths`, `coverage`: which files count, and which blocks of a file ran.
//! - `database`, `table`, `framing`, `records`, `image`: the store, and the
//!   bytes in which it is kept.
//! - `cache`, `tracer`: the cache of fingerprints and the collector of
//!   executed lines.
//! - `laws`: what holds of the engine as a whole.
//!
//! The library reads no file and starts no thread: it is handed names,
//! contents and modification times, and hands back what it decides.

pub mod cache;
pub mod changes;
pub mod checksum;
pub mod coverage;
pub mod database;
pub mod extract;
pub mod fingerprint;
pub mod framing;
pub mod image;
pub mod laws;
pub mod outline;
pub mod parser;
pub mod paths;
pub mod records;
pub mod signature;
pub mod syntax;
pub mod table;
pub mod text;
pub mod tracer;
pub mod types;

pub use cache::Cache;
pub use changes::{check_file_changed, detect_changes, save_baseline};
pub use checksum::calculate_checksum;
pub use coverage::{filter_executed_blocks, process_coverage_data, reduce_fingerprint};
pub use database::TestmonDatabase;
pub use extract::extract_blocks;
pub use fingerprint::{calculate_fingerprint, find_changed_checksums};
pub use framing::{decode_checksums, encode_checksums};
pub use image::restore;
pub use outline::{Statement, StatementKind};
pub use parser::{blocks_from_tree, outline_of, outline_tree, parse_module, syntax_of};
pub use paths::{is_pruned_dir, is_source_in_scope, should_process_file};
pub use syntax::{SyntaxKind, SyntaxNode};
pub use tracer::CoverageCollector;
pub use types::{
    Block, BlockType, ChangedBlocks, ChangedFiles, EngineError, FileCoverage, Fingerprint,
    SourceFile, TestExecution,
};
