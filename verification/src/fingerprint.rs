use crate::extract::is_block_list;
use crate::parser::{parse_module, source_blocks, source_tree};
use crate::types::{
    block_views, checksums_of, Block, BlockView, EngineError, Fingerprint, FingerprintView,
};
use vstd::prelude::*;
use vstd::string::StringSliceAdditionalSpecFns;

verus! {

/// The BLAKE3 digest of a byte string, written as 64 lower-case hexadecimal
/// digits.
pub uninterp spec fn blake3_hex(bytes: Seq<u8>) -> Seq<char>;

/// The character is one of `0` to `9` and `a` to `f`.
pub open spec fn is_hex_digit(c: char) -> bool {
    ('0' <= c && c <= '9') || ('a' <= c && c <= 'f')
}

/// The text has the shape of a digest: 64 lower-case hexadecimal digits.
pub open spec fn is_digest_text(text: Seq<char>) -> bool {
    &&& text.len() == 64
    &&& forall|i: int| 0 <= i < text.len() ==> is_hex_digit(#[trigger] text[i])
}

/// `blake3::hash` followed by `Hash::to_hex`: the digest depends on the
/// bytes alone, and `to_hex` writes two digits of `0123456789abcdef` for
/// each of its 32 bytes.
#[verifier::external_body]
pub(crate) fn hash_hex(bytes: &[u8]) -> (hex: String)
    ensures
        hex@ == blake3_hex(bytes@),
        is_digest_text(hex@),
{
    blake3::hash(bytes).to_hex().to_string()
}

/// Two modification times, in nanoseconds, count as the same when they are
/// less than a millisecond apart.
pub const MTIME_TOLERANCE: u64 = 1_000_000;

/// The two modification times are less than a millisecond apart.
pub open spec fn mtime_unchanged(stored: u64, current: u64) -> bool {
    if stored <= current {
        current - stored < MTIME_TOLERANCE
    } else {
        stored - current < MTIME_TOLERANCE
    }
}

/// Tells whether two modification times are less than a millisecond
/// apart.
pub fn same_mtime(stored: u64, current: u64) -> (same: bool)
    ensures
        same == mtime_unchanged(stored, current),
{
    if stored <= current {
        current - stored < MTIME_TOLERANCE
    } else {
        stored - current < MTIME_TOLERANCE
    }
}

/// The fingerprint of a file with this name, content and modification time
/// whose source has these blocks.
pub open spec fn fingerprint_of(
    filename: Seq<char>,
    bytes: Seq<u8>,
    mtime: u64,
    blocks: Seq<BlockView>,
) -> FingerprintView {
    FingerprintView {
        filename,
        checksums: checksums_of(blocks),
        file_hash: blake3_hex(bytes),
        mtime,
        blocks: Some(blocks),
    }
}

/// Lists the checksums of the blocks, in order.
pub fn block_checksums(blocks: &Vec<Block>) -> (checksums: Vec<i32>)
    ensures
        checksums@ == checksums_of(block_views(blocks@)),
{
    let mut checksums: Vec<i32> = Vec::new();
    let mut i: usize = 0;
    while i < blocks.len()
        invariant
            i <= blocks.len(),
            checksums@.len() == i,
            forall|k: int| 0 <= k < i ==> checksums@[k] == blocks@[k].checksum,
        decreases blocks.len() - i,
    {
        checksums.push(blocks[i].checksum);
        i += 1;
    }
    assert(checksums@ =~= checksums_of(block_views(blocks@)));
    checksums
}

/// The fingerprint of a file with this name, content and modification
/// time: the one that the blocks of its source give. Nothing where the
/// source has no blocks.
pub open spec fn source_fingerprint(filename: Seq<char>, bytes: Seq<u8>, mtime: u64) -> Option<
    FingerprintView,
> {
    match source_blocks(bytes) {
        Some(blocks) => Some(fingerprint_of(filename, bytes, mtime, blocks)),
        None => None,
    }
}

/// Assembles the fingerprint of a file from its name, content, modification
/// time and the blocks of its source.
pub fn assemble_fingerprint(path: &str, content: &str, mtime: u64, blocks: Vec<Block>) -> (fp:
    Fingerprint)
    ensures
        fp@ == fingerprint_of(path@, content.spec_bytes(), mtime, block_views(blocks@)),
        fp@.well_formed(),
        is_digest_text(fp@.file_hash),
{
    let checksums: Vec<i32> = block_checksums(&blocks);
    Fingerprint {
        filename: path.to_string(),
        checksums,
        file_hash: hash_hex(content.as_bytes()),
        mtime,
        blocks: Some(blocks),
    }
}

/// Computes the fingerprint of a file from its name, its content and its
/// modification time in nanoseconds since the Unix epoch.
///
/// The fingerprint holds the blocks that `parse_module` gives for the
/// content, one checksum for each, and the digest of the content. The
/// function fails exactly when `parse_module` does, with the same kind of
/// error.
pub fn calculate_fingerprint(path: &str, content: &str, mtime: u64) -> (result: Result<
    Fingerprint,
    EngineError,
>)
    ensures
        match result {
            Ok(fp) => {
                &&& source_fingerprint(path@, content.spec_bytes(), mtime) == Some(fp@)
                &&& fp@.well_formed()
                &&& is_digest_text(fp@.file_hash)
                &&& is_block_list(content.spec_bytes(), fp@.blocks->0)
            },
            Err(e) => {
                &&& source_blocks(content.spec_bytes()) is None
                &&& e is Parse <==> source_tree(content.spec_bytes()) is None
                &&& e is Invariant <==> source_tree(content.spec_bytes()) is Some
            },
        },
{
    match parse_module(content) {
        Err(e) => Err(e),
        Ok(blocks) => Ok(assemble_fingerprint(path, content, mtime, blocks)),
    }
}

/// The old checksums that no longer occur among the new ones, in the order
/// of the old list.
pub open spec fn changed_checksums(old_checksums: Seq<i32>, new_checksums: Seq<i32>) -> Seq<i32> {
    old_checksums.filter(|c: i32| !new_checksums.contains(c))
}

/// Tells whether a checksum occurs in a list.
pub fn has_checksum(checksums: &[i32], checksum: i32) -> (found: bool)
    ensures
        found == checksums@.contains(checksum),
{
    let mut i: usize = 0;
    while i < checksums.len()
        invariant
            i <= checksums.len(),
            forall|k: int| 0 <= k < i ==> checksums@[k] != checksum,
        decreases checksums.len() - i,
    {
        if checksums[i] == checksum {
            return true;
        }
        i += 1;
    }
    false
}

/// Finds the old checksums that are gone: these are what tests may have
/// recorded, so a test that recorded one of them is affected.
pub fn find_changed_checksums(old_checksums: &[i32], new_checksums: &[i32]) -> (changed: Vec<i32>)
    ensures
        changed@ == changed_checksums(old_checksums@, new_checksums@),
{
    let ghost gone = |c: i32| !new_checksums@.contains(c);
    let mut changed: Vec<i32> = Vec::new();
    let mut i: usize = 0;
    proof {
        reveal(Seq::filter);
        assert(old_checksums@.take(0) =~= Seq::<i32>::empty());
    }
    while i < old_checksums.len()
        invariant
            i <= old_checksums.len(),
            gone == |c: i32| !new_checksums@.contains(c),
            changed@ == old_checksums@.take(i as int).filter(gone),
        decreases old_checksums.len() - i,
    {
        let c: i32 = old_checksums[i];
        proof {
            reveal(Seq::filter);
            let next = old_checksums@.take(i + 1);
            assert(next.drop_last() =~= old_checksums@.take(i as int));
            assert(next.last() == c);
            assert(gone(c) == !new_checksums@.contains(c));
            assert(next.filter(gone) == if gone(c) {
                next.drop_last().filter(gone).push(c)
            } else {
                next.drop_last().filter(gone)
            });
        }
        if !has_checksum(new_checksums, c) {
            changed.push(c);
        }
        i += 1;
    }
    assert(old_checksums@.take(old_checksums.len() as int) =~= old_checksums@);
    changed
}

/// Tells whether two checksum lists are equal position by position.
pub fn same_checksums(a: &[i32], b: &[i32]) -> (same: bool)
    ensures
        same == (a@ == b@),
{
    if a.len() != b.len() {
        return false;
    }
    let mut i: usize = 0;
    while i < a.len()
        invariant
            a.len() == b.len(),
            i <= a.len(),
            forall|k: int| 0 <= k < i ==> a@[k] == b@[k],
        decreases a.len() - i,
    {
        if a[i] != b[i] {
            return false;
        }
        i += 1;
    }
    assert(a@ =~= b@);
    true
}

/// What the comparison of block checksums says of a file whose bytes have
/// changed: nothing where the lists are equal position by position,
/// otherwise the old checksums that are gone.
pub open spec fn checksum_change(stored: Seq<i32>, current: Seq<i32>) -> Option<Seq<i32>> {
    if current == stored {
        None
    } else {
        Some(changed_checksums(stored, current))
    }
}

/// Compares the block checksums of a file with the stored ones.
pub fn compare_checksums(stored: &[i32], current: &[i32]) -> (change: Option<Vec<i32>>)
    ensures
        match change {
            Some(changed) => checksum_change(stored@, current@) == Some(changed@),
            None => checksum_change(stored@, current@) is None,
        },
{
    if same_checksums(current, stored) {
        None
    } else {
        Some(find_changed_checksums(stored, current))
    }
}

} // verus!
