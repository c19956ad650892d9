use crate::types::texts;
use vstd::prelude::*;
use vstd::string::StringSliceAdditionalSpecFns;
use vstd::utf8::encode_utf8;

verus! {

/// The byte that parts the components of a path: `/`.
pub const SLASH: u8 = 47;

/// `part` stands in `s` at position `at`.
pub open spec fn occurs_at(s: Seq<u8>, part: Seq<u8>, at: int) -> bool {
    0 <= at && at + part.len() <= s.len() && s.subrange(at, at + part.len()) == part
}

/// `s` begins with `part`.
pub open spec fn has_prefix(s: Seq<u8>, part: Seq<u8>) -> bool {
    occurs_at(s, part, 0)
}

/// `s` ends with `part`.
pub open spec fn has_suffix(s: Seq<u8>, part: Seq<u8>) -> bool {
    occurs_at(s, part, s.len() - part.len())
}

/// `part` stands somewhere in `s`.
pub open spec fn has_part(s: Seq<u8>, part: Seq<u8>) -> bool {
    exists|at: int| occurs_at(s, part, at)
}

/// Where the last component of a path begins: after its last slash.
pub open spec fn basename_start(path: Seq<u8>) -> int
    decreases path.len(),
{
    if path.len() == 0 || path.last() == SLASH {
        path.len() as int
    } else {
        basename_start(path.drop_last())
    }
}

/// The last component of a path.
pub open spec fn basename(path: Seq<u8>) -> Seq<u8> {
    path.subrange(basename_start(path), path.len() as int)
}

/// The path names a Python source file: its last component ends with `.py`
/// and is longer than that.
pub open spec fn has_source_extension(path: Seq<u8>) -> bool {
    has_suffix(basename(path), ".py".spec_bytes()) && basename(path).len()
        > ".py".spec_bytes().len()
}

/// The path looks like a test file: it has a `/tests/` segment, or ends
/// with `_test.py`, or its last component begins with `test_`.
pub open spec fn is_test_file(path: Seq<u8>) -> bool {
    ||| has_part(path, "/tests/".spec_bytes())
    ||| has_suffix(path, "_test.py".spec_bytes())
    ||| has_prefix(basename(path), "test_".spec_bytes())
}

/// The length of a path without the slashes at its end.
pub open spec fn trimmed_len(path: Seq<u8>) -> int
    decreases path.len(),
{
    if path.len() > 0 && path.last() == SLASH {
        trimmed_len(path.drop_last())
    } else {
        path.len() as int
    }
}

/// The path is `scope` or lies below it: `scope`, slashes at its end set
/// aside, is a prefix of the path that ends where a component of the path
/// ends.
pub open spec fn lies_under(path: Seq<u8>, scope: Seq<u8>) -> bool {
    let n = trimmed_len(scope);
    &&& occurs_at(path, scope.subrange(0, n), 0)
    &&& (path.len() == n || path[n] == SLASH)
}

/// The bytes of the scope at `i`.
pub open spec fn scope_at(scopes: Seq<Seq<char>>, i: int) -> Seq<u8> {
    encode_utf8(scopes[i])
}

/// The path lies under at least one of the scopes.
pub open spec fn in_scope(path: Seq<u8>, scopes: Seq<Seq<char>>) -> bool {
    exists|i: int| 0 <= i < scopes.len() && lies_under(path, #[trigger] scope_at(scopes, i))
}

/// A directory entry that a walk of the source tree passes over: hidden
/// entries, `__pycache__` and `node_modules`.
pub open spec fn is_pruned_name(name: Seq<u8>) -> bool {
    ||| has_prefix(name, ".".spec_bytes())
    ||| name == "__pycache__".spec_bytes()
    ||| name == "node_modules".spec_bytes()
}

/// A file of the walk that belongs to the project's sources.
pub open spec fn is_project_source(path: Seq<u8>, scopes: Seq<Seq<char>>) -> bool {
    has_source_extension(path) && in_scope(path, scopes)
}

/// A covered file is admitted as a dependency of the test in `test_file`: it
/// is a source file, it lies under the project root and under one of the
/// scopes, and it is not a test file other than `test_file`.
pub open spec fn admitted(
    path: Seq<u8>,
    project_root: Seq<u8>,
    test_file: Seq<u8>,
    scopes: Seq<Seq<char>>,
) -> bool {
    &&& has_source_extension(path)
    &&& lies_under(path, project_root)
    &&& in_scope(path, scopes)
    &&& !(is_test_file(path) && path != test_file)
}

/// Tells whether `part` stands in `s` at position `at`.
pub fn occurs(s: &[u8], part: &[u8], at: usize) -> (found: bool)
    ensures
        found == occurs_at(s@, part@, at as int),
{
    if at > s.len() || part.len() > s.len() - at {
        return false;
    }
    let mut i: usize = 0;
    while i < part.len()
        invariant
            at + part.len() <= s.len(),
            i <= part.len(),
            forall|k: int| 0 <= k < i ==> s@[at + k] == part@[k],
        decreases part.len() - i,
    {
        if s[at + i] != part[i] {
            assert(s@.subrange(at as int, at + part@.len())[i as int] == s@[at + i]);
            return false;
        }
        i += 1;
    }
    assert(s@.subrange(at as int, at + part@.len()) =~= part@);
    true
}

/// Tells whether two byte strings are the same.
pub fn bytes_equal(a: &[u8], b: &[u8]) -> (same: bool)
    ensures
        same == (a@ == b@),
{
    if a.len() != b.len() {
        return false;
    }
    let found: bool = occurs(a, b, 0);
    assert(a@.subrange(0, a@.len() as int) =~= a@);
    found
}

/// Tells whether `s` ends with `part`.
pub fn ends_with(s: &[u8], part: &[u8]) -> (found: bool)
    ensures
        found == has_suffix(s@, part@),
{
    if part.len() > s.len() {
        return false;
    }
    occurs(s, part, s.len() - part.len())
}

/// Tells whether `part` stands somewhere in `s`.
pub fn contains_part(s: &[u8], part: &[u8]) -> (found: bool)
    ensures
        found == has_part(s@, part@),
{
    if part.len() > s.len() {
        return false;
    }
    let last: usize = s.len() - part.len();
    let mut at: usize = 0;
    while at < last
        invariant
            last == s.len() - part.len(),
            at <= last,
            forall|k: int| 0 <= k < at ==> !occurs_at(s@, part@, k),
        decreases last - at,
    {
        if occurs(s, part, at) {
            return true;
        }
        at += 1;
    }
    occurs(s, part, last)
}

/// Finds where the last component of a path begins.
pub fn find_basename_start(path: &[u8]) -> (start: usize)
    ensures
        start == basename_start(path@),
        start <= path@.len(),
{
    let mut n: usize = path.len();
    assert(path@.subrange(0, n as int) =~= path@);
    while n > 0 && path[n - 1] != SLASH
        invariant
            n <= path@.len(),
            basename_start(path@) == basename_start(path@.subrange(0, n as int)),
        decreases n,
    {
        assert(path@.subrange(0, n as int).drop_last() =~= path@.subrange(0, n - 1));
        n -= 1;
    }
    n
}

/// Tells whether a path names a Python source file.
pub fn source_extension(path: &[u8]) -> (found: bool)
    ensures
        found == has_source_extension(path@),
{
    let start: usize = find_basename_start(path);
    let name: &[u8] = vstd::slice::slice_subrange(path, start, path.len());
    ends_with(name, ".py".as_bytes()) && name.len() > ".py".as_bytes().len()
}

/// Tells whether a path looks like a test file.
pub fn test_file_name(path: &[u8]) -> (found: bool)
    ensures
        found == is_test_file(path@),
{
    let start: usize = find_basename_start(path);
    let name: &[u8] = vstd::slice::slice_subrange(path, start, path.len());
    contains_part(path, "/tests/".as_bytes()) || ends_with(path, "_test.py".as_bytes()) || occurs(
        name,
        "test_".as_bytes(),
        0,
    )
}

/// Tells whether a path is `scope` or lies below it.
pub fn under(path: &[u8], scope: &[u8]) -> (found: bool)
    ensures
        found == lies_under(path@, scope@),
{
    let mut n: usize = scope.len();
    assert(scope@.subrange(0, n as int) =~= scope@);
    while n > 0 && scope[n - 1] == SLASH
        invariant
            n <= scope@.len(),
            trimmed_len(scope@) == trimmed_len(scope@.subrange(0, n as int)),
        decreases n,
    {
        assert(scope@.subrange(0, n as int).drop_last() =~= scope@.subrange(0, n - 1));
        n -= 1;
    }
    let stem: &[u8] = vstd::slice::slice_subrange(scope, 0, n);
    occurs(path, stem, 0) && (path.len() == n || path[n] == SLASH)
}

/// Tells whether a path lies under at least one of the scopes.
pub fn within_scope(path: &[u8], scope_paths: &Vec<String>) -> (found: bool)
    ensures
        found == in_scope(path@, texts(scope_paths@)),
{
    let ghost scopes = texts(scope_paths@);
    let mut i: usize = 0;
    while i < scope_paths.len()
        invariant
            i <= scope_paths@.len(),
            scopes == texts(scope_paths@),
            forall|k: int| 0 <= k < i ==> !lies_under(path@, #[trigger] scope_at(scopes, k)),
        decreases scope_paths.len() - i,
    {
        if under(path, scope_paths[i].as_str().as_bytes()) {
            assert(lies_under(path@, scope_at(scopes, i as int)));
            return true;
        }
        i += 1;
    }
    false
}

/// Tells whether a walk of the source tree passes over a directory entry of
/// this name.
pub fn is_pruned_dir(name: &str) -> (pruned: bool)
    ensures
        pruned == is_pruned_name(name.spec_bytes()),
{
    let bytes: &[u8] = name.as_bytes();
    occurs(bytes, ".".as_bytes(), 0) || bytes_equal(bytes, "__pycache__".as_bytes())
        || bytes_equal(bytes, "node_modules".as_bytes())
}

/// Tells whether a file found by the walk is a Python source in scope.
pub fn is_source_in_scope(path: &str, scope_paths: &Vec<String>) -> (found: bool)
    ensures
        found == is_project_source(path.spec_bytes(), texts(scope_paths@)),
{
    let bytes: &[u8] = path.as_bytes();
    source_extension(bytes) && within_scope(bytes, scope_paths)
}

/// Tells whether a covered file counts as a dependency of the test in
/// `test_file`.
pub fn should_process_file(
    filepath: &str,
    project_root: &str,
    test_file: &str,
    scope_paths: &Vec<String>,
) -> (accepted: bool)
    ensures
        accepted == admitted(
            filepath.spec_bytes(),
            project_root.spec_bytes(),
            test_file.spec_bytes(),
            texts(scope_paths@),
        ),
{
    let path: &[u8] = filepath.as_bytes();
    if !source_extension(path) {
        return false;
    }
    if !under(path, project_root.as_bytes()) {
        return false;
    }
    if !within_scope(path, scope_paths) {
        return false;
    }
    !(test_file_name(path) && !bytes_equal(path, test_file.as_bytes()))
}

} // verus!
