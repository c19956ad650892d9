use crate::paths::bytes_equal;
use crate::types::{copy_checksums, Fingerprint, FingerprintView};
use vstd::prelude::*;
use vstd::utf8::{decode_utf8, encode_utf8, encode_utf8_decode_utf8};

verus! {

/// Tells whether two texts are the same.
pub fn same_text(a: &str, b: &str) -> (same: bool)
    ensures
        same == (a@ == b@),
{
    let same: bool = bytes_equal(a.as_bytes(), b.as_bytes());
    proof {
        encode_utf8_decode_utf8(a@);
        encode_utf8_decode_utf8(b@);
        if same {
            assert(a@ == decode_utf8(encode_utf8(a@)));
        }
    }
    same
}

/// Some row records the file `name`.
pub open spec fn has_file(rows: Seq<Fingerprint>, name: Seq<char>) -> bool {
    exists|i: int| 0 <= i < rows.len() && (#[trigger] rows[i]).filename@ == name
}

/// No two rows record the same file.
pub open spec fn distinct_files(rows: Seq<Fingerprint>) -> bool {
    forall|i: int, j: int|
        0 <= i < j < rows.len() ==> (#[trigger] rows[i]).filename@ != (#[trigger] rows[j]).filename@
}

/// The position of a row that records the file `name`.
pub open spec fn file_index(rows: Seq<Fingerprint>, name: Seq<char>) -> int {
    choose|i: int| 0 <= i < rows.len() && (#[trigger] rows[i]).filename@ == name
}

/// The rows as a map from file name to fingerprint.
pub open spec fn file_map(rows: Seq<Fingerprint>) -> Map<Seq<char>, FingerprintView> {
    Map::new(
        |name: Seq<char>| has_file(rows, name),
        |name: Seq<char>| rows[file_index(rows, name)]@,
    )
}

/// Every row is held without its block list.
pub open spec fn all_stored(rows: Seq<Fingerprint>) -> bool {
    forall|i: int| 0 <= i < rows.len() ==> (#[trigger] rows[i]).blocks is None
}

/// Where no two rows record the same file, the map holds each row under
/// the name of its file.
pub proof fn lemma_file_map_at(rows: Seq<Fingerprint>, i: int)
    requires
        distinct_files(rows),
        0 <= i < rows.len(),
    ensures
        file_map(rows).dom().contains(rows[i].filename@),
        file_map(rows)[rows[i].filename@] == rows[i]@,
{
    let name = rows[i].filename@;
    assert(has_file(rows, name));
    let j = file_index(rows, name);
    assert(i == j) by {
        if i < j {
            assert(rows[i].filename@ != rows[j].filename@);
        } else if j < i {
            assert(rows[j].filename@ != rows[i].filename@);
        }
    }
}

/// Looks for the row of a file.
pub fn find_file(rows: &Vec<Fingerprint>, name: &str) -> (found: Option<usize>)
    ensures
        match found {
            Some(i) => i < rows@.len() && rows@[i as int].filename@ == name@,
            None => !has_file(rows@, name@),
        },
{
    let mut i: usize = 0;
    while i < rows.len()
        invariant
            i <= rows@.len(),
            forall|k: int| 0 <= k < i ==> (#[trigger] rows@[k]).filename@ != name@,
        decreases rows.len() - i,
    {
        if same_text(rows[i].filename.as_str(), name) {
            return Some(i);
        }
        i += 1;
    }
    None
}

/// The fingerprint as it is stored: without its block list.
pub fn stored_copy(fp: &Fingerprint) -> (copy: Fingerprint)
    ensures
        copy@ == fp@.stored(),
        copy.blocks is None,
{
    Fingerprint {
        filename: fp.filename.clone(),
        checksums: copy_checksums(&fp.checksums),
        file_hash: fp.file_hash.clone(),
        mtime: fp.mtime,
        blocks: None,
    }
}

/// Writes the row of a file: over the row that records the file, or as a
/// new row.
pub fn upsert_file(rows: &mut Vec<Fingerprint>, fp: Fingerprint)
    requires
        distinct_files(old(rows)@),
    ensures
        distinct_files(final(rows)@),
        file_map(final(rows)@) == file_map(old(rows)@).insert(fp.filename@, fp@),
        all_stored(old(rows)@) && fp.blocks is None ==> all_stored(final(rows)@),
{
    let ghost before = rows@;
    let ghost name = fp.filename@;
    let ghost value = fp@;
    let ghost at: int;
    match find_file(rows, fp.filename.as_str()) {
        Some(i) => {
            rows.set(i, fp);
            proof {
                at = i as int;
            }
        },
        None => {
            rows.push(fp);
            proof {
                at = before.len() as int;
            }
        },
    }
    proof {
        let after = rows@;
        assert(0 <= at < after.len() && after[at] == fp);
        assert(forall|k: int| 0 <= k < after.len() && k != at ==> after[k] == before[k]);
        assert(forall|k: int| 0 <= k < before.len() && k != at ==> after[k] == before[k]);
        assert(at < before.len() ==> before[at].filename@ == name);
        assert(at == before.len() ==> !has_file(before, name));
        assert(distinct_files(after));
        assert forall|n: Seq<char>| has_file(after, n) == (has_file(before, n) || n == name) by {
            if has_file(after, n) {
                let k = file_index(after, n);
                if after[k].filename@ != name {
                    assert(before[k].filename@ == n);
                }
            }
            if has_file(before, n) {
                let k = file_index(before, n);
                assert(after[k].filename@ == n);
            }
            if n == name {
                assert(after[at].filename@ == n);
            }
        }
        assert forall|n: Seq<char>| has_file(after, n) implies #[trigger] file_map(after)[n]
            == file_map(before).insert(name, value)[n] by {
            let k = file_index(after, n);
            lemma_file_map_at(after, k);
            if n != name {
                assert(before[k].filename@ == n);
                lemma_file_map_at(before, k);
            }
        }
        assert(file_map(after) =~= file_map(before).insert(name, value));
    }
}

/// The map of the first `i + 1` rows is the map of the first `i` with the
/// row at `i` written to it.
pub proof fn lemma_file_map_grows(rows: Seq<Fingerprint>, i: int)
    requires
        distinct_files(rows),
        0 <= i < rows.len(),
    ensures
        file_map(rows.take(i + 1)) == file_map(rows.take(i)).insert(rows[i].filename@, rows[i]@),
        !file_map(rows.take(i)).contains_key(rows[i].filename@),
{
    let shorter = rows.take(i);
    let longer = rows.take(i + 1);
    let name = rows[i].filename@;
    assert(distinct_files(longer));
    assert(distinct_files(shorter));
    assert(!has_file(shorter, name)) by {
        if has_file(shorter, name) {
            let k = file_index(shorter, name);
            assert(rows[k].filename@ != rows[i].filename@);
        }
    }
    assert forall|n: Seq<char>| has_file(longer, n) == (has_file(shorter, n) || n == name) by {
        if has_file(longer, n) && n != name {
            let k = file_index(longer, n);
            assert(shorter[k].filename@ == n);
        }
        if has_file(shorter, n) {
            let k = file_index(shorter, n);
            assert(longer[k].filename@ == n);
        }
        if n == name {
            assert(longer[i].filename@ == n);
        }
    }
    assert forall|n: Seq<char>| has_file(longer, n) implies #[trigger] file_map(longer)[n]
        == file_map(shorter).insert(name, rows[i]@)[n] by {
        let k = file_index(longer, n);
        lemma_file_map_at(longer, k);
        if n != name {
            assert(shorter[k].filename@ == n);
            lemma_file_map_at(shorter, k);
        }
    }
    assert(file_map(longer) =~= file_map(shorter).insert(name, rows[i]@));
}

} // verus!
