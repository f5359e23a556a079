//! Incremental indexing: which files changed since they were indexed, which were deleted, and
//! the content hash by which a change is seen.
use vstd::prelude::*;

use sha2::Digest;

use crate::text::str_equal;

verus! {

/// A file as last seen: its path, content hash and modification time in milliseconds.
#[derive(Debug, Clone)]
pub struct FileState {
    pub path: String,
    pub hash: String,
    pub mtime_ms: i64,
}

/// The paths to (re)index and the paths that are gone.
#[derive(Debug, Clone)]
pub struct DiffResult {
    pub changed_or_new: Vec<String>,
    pub deleted: Vec<String>,
}

/// `db` records the file `e` with the same hash and modification time.
pub open spec fn recorded_unchanged(e: FileState, db: Seq<FileState>) -> bool {
    exists|j: int|
        0 <= j < db.len() && (#[trigger] db[j]).path@ == e.path@ && db[j].hash@ == e.hash@
            && db[j].mtime_ms == e.mtime_ms
}

/// Some file of `s` has the path `p`.
pub open spec fn has_path(s: Seq<FileState>, p: Seq<char>) -> bool {
    exists|j: int| 0 <= j < s.len() && (#[trigger] s[j]).path@ == p
}

/// The paths of the first `n` files on disk that the index does not hold unchanged: new files,
/// and files whose hash or modification time differs.
pub open spec fn changed_paths(disk: Seq<FileState>, db: Seq<FileState>, n: int) -> Seq<Seq<char>>
    decreases n,
{
    if n <= 0 {
        seq![]
    } else {
        let r = changed_paths(disk, db, n - 1);
        if recorded_unchanged(disk[n - 1], db) {
            r
        } else {
            r.push(disk[n - 1].path@)
        }
    }
}

/// The paths of the first `n` indexed files that are no longer on disk.
pub open spec fn deleted_paths(disk: Seq<FileState>, db: Seq<FileState>, n: int) -> Seq<Seq<char>>
    decreases n,
{
    if n <= 0 {
        seq![]
    } else {
        let r = deleted_paths(disk, db, n - 1);
        if has_path(disk, db[n - 1].path@) {
            r
        } else {
            r.push(db[n - 1].path@)
        }
    }
}

/// The character views of strings.
pub open spec fn path_views(v: Seq<String>) -> Seq<Seq<char>> {
    v.map_values(|s: String| s@)
}

fn recorded_unchanged_exec(e: &FileState, db: &[FileState]) -> (r: bool)
    ensures
        r == recorded_unchanged(*e, db@),
{
    let mut j: usize = 0;
    while j < db.len()
        invariant
            j <= db@.len(),
            forall|k: int|
                0 <= k < j ==> !((#[trigger] db@[k]).path@ == e.path@ && db@[k].hash@ == e.hash@
                    && db@[k].mtime_ms == e.mtime_ms),
        decreases db.len() - j,
    {
        let d = &db[j];
        if str_equal(d.path.as_str(), e.path.as_str()) && str_equal(d.hash.as_str(), e.hash.as_str())
            && d.mtime_ms == e.mtime_ms {
            return true;
        }
        j = j + 1;
    }
    false
}

fn has_path_exec(s: &[FileState], p: &String) -> (r: bool)
    ensures
        r == has_path(s@, p@),
{
    let mut j: usize = 0;
    while j < s.len()
        invariant
            j <= s@.len(),
            forall|k: int| 0 <= k < j ==> (#[trigger] s@[k]).path@ != p@,
        decreases s.len() - j,
    {
        if str_equal(s[j].path.as_str(), p.as_str()) {
            return true;
        }
        j = j + 1;
    }
    false
}

/// No two files of `s` have the same path.
pub open spec fn unique_paths(s: Seq<FileState>) -> bool {
    forall|i: int, j: int|
        0 <= i < j < s.len() ==> (#[trigger] s[i]).path@ != (#[trigger] s[j]).path@
}

/// Whether no two files of `s` have the same path.
pub fn has_unique_paths(s: &[FileState]) -> (r: bool)
    ensures
        r == unique_paths(s@),
{
    let mut i: usize = 0;
    while i < s.len()
        invariant
            i <= s@.len(),
            forall|a: int, b: int|
                0 <= a < i && a < b < s@.len() ==> (#[trigger] s@[a]).path@ != (#[trigger] s@[b]).path@,
        decreases s.len() - i,
    {
        let mut j: usize = i + 1;
        while j < s.len()
            invariant
                i < s@.len(),
                i + 1 <= j <= s@.len(),
                forall|a: int, b: int|
                    0 <= a < i && a < b < s@.len() ==> (#[trigger] s@[a]).path@ != (#[trigger] s@[b]).path@,
                forall|b: int| i < b < j ==> s@[i as int].path@ != (#[trigger] s@[b]).path@,
            decreases s.len() - j,
        {
            if str_equal(s[i].path.as_str(), s[j].path.as_str()) {
                return false;
            }
            j = j + 1;
        }
        i = i + 1;
    }
    true
}

/// The files to (re)index, in disk order, and the indexed files that are gone, in index order.
/// Each side lists a path at most once, as a map from path to file does.
pub fn diff_paths(disk: &[FileState], db: &[FileState]) -> (r: DiffResult)
    requires
        unique_paths(disk@),
        unique_paths(db@),
    ensures
        path_views(r.changed_or_new@) == changed_paths(disk@, db@, disk@.len() as int),
        path_views(r.deleted@) == deleted_paths(disk@, db@, db@.len() as int),
{
    let mut changed_or_new: Vec<String> = Vec::new();
    let mut i: usize = 0;
    while i < disk.len()
        invariant
            i <= disk@.len(),
            path_views(changed_or_new@) == changed_paths(disk@, db@, i as int),
        decreases disk.len() - i,
    {
        if !recorded_unchanged_exec(&disk[i], db) {
            let p = disk[i].path.clone();
            let ghost before = changed_or_new@;
            changed_or_new.push(p);
            proof {
                assert(path_views(changed_or_new@) =~= path_views(before).push(p@));
            }
        }
        i = i + 1;
    }
    let mut deleted: Vec<String> = Vec::new();
    let mut k: usize = 0;
    while k < db.len()
        invariant
            k <= db@.len(),
            path_views(deleted@) == deleted_paths(disk@, db@, k as int),
        decreases db.len() - k,
    {
        if !has_path_exec(disk, &db[k].path) {
            let p = db[k].path.clone();
            let ghost before = deleted@;
            deleted.push(p);
            proof {
                assert(path_views(deleted@) =~= path_views(before).push(p@));
            }
        }
        k = k + 1;
    }
    DiffResult { changed_or_new, deleted }
}

proof fn lemma_changed_paths_empty_when_same(s: Seq<FileState>, n: int)
    requires
        n <= s.len(),
    ensures
        changed_paths(s, s, n).len() == 0,
    decreases n,
{
    if n > 0 {
        lemma_changed_paths_empty_when_same(s, n - 1);
        assert(s[n - 1].path@ == s[n - 1].path@);
    }
}

proof fn lemma_deleted_paths_empty_when_same(s: Seq<FileState>, n: int)
    requires
        n <= s.len(),
    ensures
        deleted_paths(s, s, n).len() == 0,
    decreases n,
{
    if n > 0 {
        lemma_deleted_paths_empty_when_same(s, n - 1);
        assert(has_path(s, s[n - 1].path@));
    }
}

proof fn lemma_changed_are_on_disk(disk: Seq<FileState>, db: Seq<FileState>, n: int)
    requires
        n <= disk.len(),
    ensures
        forall|i: int|
            0 <= i < changed_paths(disk, db, n).len() ==> has_path(
                disk,
                #[trigger] changed_paths(disk, db, n)[i],
            ),
    decreases n,
{
    if n > 0 {
        lemma_changed_paths_bounds(disk, db, n - 1);
        lemma_changed_are_on_disk(disk, db, n - 1);
        let r = changed_paths(disk, db, n - 1);
        assert forall|i: int| 0 <= i < changed_paths(disk, db, n).len() implies has_path(
            disk,
            #[trigger] changed_paths(disk, db, n)[i],
        ) by {
            if i < r.len() {
                assert(changed_paths(disk, db, n)[i] == r[i]);
            } else {
                assert(disk[n - 1].path@ == changed_paths(disk, db, n)[i]);
            }
        }
    }
}

proof fn lemma_changed_paths_bounds(disk: Seq<FileState>, db: Seq<FileState>, n: int)
    ensures
        changed_paths(disk, db, n).len() <= if n > 0 {
            n
        } else {
            0
        },
    decreases n,
{
    if n > 0 {
        lemma_changed_paths_bounds(disk, db, n - 1);
    }
}

proof fn lemma_deleted_not_on_disk(disk: Seq<FileState>, db: Seq<FileState>, n: int)
    requires
        n <= db.len(),
    ensures
        forall|i: int|
            0 <= i < deleted_paths(disk, db, n).len() ==> !has_path(
                disk,
                #[trigger] deleted_paths(disk, db, n)[i],
            ),
    decreases n,
{
    if n > 0 {
        lemma_deleted_not_on_disk(disk, db, n - 1);
        let r = deleted_paths(disk, db, n - 1);
        assert forall|i: int| 0 <= i < deleted_paths(disk, db, n).len() implies !has_path(
            disk,
            #[trigger] deleted_paths(disk, db, n)[i],
        ) by {
            if i < r.len() {
                assert(deleted_paths(disk, db, n)[i] == r[i]);
            }
        }
    }
}

/// The hash and modification time recorded for the path `p` in `s` (its last entry).
pub open spec fn entry_of(s: Seq<FileState>, p: Seq<char>) -> (Seq<char>, i64)
    decreases s.len(),
{
    if s.len() == 0 {
        (seq![], 0)
    } else if s.last().path@ == p {
        (s.last().hash@, s.last().mtime_ms)
    } else {
        entry_of(s.drop_last(), p)
    }
}

/// The files of `s` as a map from path to hash and modification time.
pub open spec fn state_map(s: Seq<FileState>) -> Map<Seq<char>, (Seq<char>, i64)> {
    Map::new(|p: Seq<char>| has_path(s, p), |p: Seq<char>| entry_of(s, p))
}

/// The index `db` after the diff is applied: the deleted paths removed, and the changed or new
/// paths recorded as they are on disk.
pub open spec fn applied(
    db: Seq<FileState>,
    disk: Seq<FileState>,
    changed: Seq<Seq<char>>,
    deleted: Seq<Seq<char>>,
) -> Map<Seq<char>, (Seq<char>, i64)> {
    Map::new(
        |p: Seq<char>| (has_path(db, p) && !deleted.contains(p)) || changed.contains(p),
        |p: Seq<char>| if changed.contains(p) {
            entry_of(disk, p)
        } else {
            entry_of(db, p)
        },
    )
}

proof fn lemma_entry_of(s: Seq<FileState>, i: int)
    requires
        unique_paths(s),
        0 <= i < s.len(),
    ensures
        entry_of(s, s[i].path@) == (s[i].hash@, s[i].mtime_ms),
    decreases s.len(),
{
    if i < s.len() - 1 {
        assert(s[i].path@ != s[s.len() - 1].path@);
        assert(s.drop_last()[i] == s[i]);
        assert(unique_paths(s.drop_last())) by {
            assert forall|a: int, b: int| 0 <= a < b < s.drop_last().len() implies (
            #[trigger] s.drop_last()[a]).path@ != (#[trigger] s.drop_last()[b]).path@ by {
                assert(s.drop_last()[a] == s[a] && s.drop_last()[b] == s[b]);
            }
        }
        lemma_entry_of(s.drop_last(), i);
    }
}

proof fn lemma_changed_membership(disk: Seq<FileState>, db: Seq<FileState>, n: int)
    requires
        0 <= n <= disk.len(),
    ensures
        forall|p: Seq<char>|
            #[trigger] changed_paths(disk, db, n).contains(p) <==> exists|i: int|
                0 <= i < n && (#[trigger] disk[i]).path@ == p && !recorded_unchanged(disk[i], db),
    decreases n,
{
    if n > 0 {
        lemma_changed_membership(disk, db, n - 1);
        let r = changed_paths(disk, db, n - 1);
        let c = changed_paths(disk, db, n);
        assert forall|p: Seq<char>| #[trigger] c.contains(p) <==> exists|i: int|
            0 <= i < n && (#[trigger] disk[i]).path@ == p && !recorded_unchanged(disk[i], db) by {
            if c.contains(p) {
                let k = choose|k: int| 0 <= k < c.len() && c[k] == p;
                if k < r.len() {
                    assert(r[k] == p);
                    assert(r.contains(p));
                } else {
                    assert(disk[n - 1].path@ == p);
                }
            }
            if exists|i: int| 0 <= i < n && (#[trigger] disk[i]).path@ == p && !recorded_unchanged(disk[i], db) {
                let i = choose|i: int| 0 <= i < n && (#[trigger] disk[i]).path@ == p && !recorded_unchanged(disk[i], db);
                if i < n - 1 {
                    assert(r.contains(p));
                    let k = choose|k: int| 0 <= k < r.len() && r[k] == p;
                    assert(c[k] == p);
                } else {
                    assert(c[c.len() - 1] == p);
                }
            }
        }
    }
}

proof fn lemma_deleted_membership(disk: Seq<FileState>, db: Seq<FileState>, n: int)
    requires
        0 <= n <= db.len(),
    ensures
        forall|p: Seq<char>|
            #[trigger] deleted_paths(disk, db, n).contains(p) <==> exists|j: int|
                0 <= j < n && (#[trigger] db[j]).path@ == p && !has_path(disk, p),
    decreases n,
{
    if n > 0 {
        lemma_deleted_membership(disk, db, n - 1);
        let r = deleted_paths(disk, db, n - 1);
        let c = deleted_paths(disk, db, n);
        assert forall|p: Seq<char>| #[trigger] c.contains(p) <==> exists|j: int|
            0 <= j < n && (#[trigger] db[j]).path@ == p && !has_path(disk, p) by {
            if c.contains(p) {
                let k = choose|k: int| 0 <= k < c.len() && c[k] == p;
                if k < r.len() {
                    assert(r[k] == p);
                    assert(r.contains(p));
                } else {
                    assert(db[n - 1].path@ == p);
                }
            }
            if exists|j: int| 0 <= j < n && (#[trigger] db[j]).path@ == p && !has_path(disk, p) {
                let j = choose|j: int| 0 <= j < n && (#[trigger] db[j]).path@ == p && !has_path(disk, p);
                if j < n - 1 {
                    assert(r.contains(p));
                    let k = choose|k: int| 0 <= k < r.len() && r[k] == p;
                    assert(c[k] == p);
                } else {
                    assert(c[c.len() - 1] == p);
                }
            }
        }
    }
}

/// Applying the diff to the index gives the folder as it is on disk: removing the deleted
/// paths and recording the changed or new ones as on disk leaves exactly the disk's files,
/// with their hashes and modification times.
pub proof fn lemma_diff_applied(disk: Seq<FileState>, db: Seq<FileState>)
    requires
        unique_paths(disk),
        unique_paths(db),
    ensures
        applied(
            db,
            disk,
            changed_paths(disk, db, disk.len() as int),
            deleted_paths(disk, db, db.len() as int),
        ) == state_map(disk),
{
    let ch = changed_paths(disk, db, disk.len() as int);
    let del = deleted_paths(disk, db, db.len() as int);
    lemma_changed_membership(disk, db, disk.len() as int);
    lemma_deleted_membership(disk, db, db.len() as int);
    let a = applied(db, disk, ch, del);
    let m = state_map(disk);
    assert forall|p: Seq<char>| #[trigger] a.dom().contains(p) <==> m.dom().contains(p) by {
        if has_path(disk, p) {
            let i = choose|i: int| 0 <= i < disk.len() && (#[trigger] disk[i]).path@ == p;
            if !ch.contains(p) {
                assert(recorded_unchanged(disk[i], db));
                let j = choose|j: int|
                    0 <= j < db.len() && (#[trigger] db[j]).path@ == disk[i].path@ && db[j].hash@
                        == disk[i].hash@ && db[j].mtime_ms == disk[i].mtime_ms;
                assert(has_path(db, p));
                assert(!del.contains(p));
            }
        } else {
            if ch.contains(p) {
                let i = choose|i: int|
                    0 <= i < disk.len() && (#[trigger] disk[i]).path@ == p && !recorded_unchanged(disk[i], db);
                assert(has_path(disk, p));
            }
            if has_path(db, p) {
                let j = choose|j: int| 0 <= j < db.len() && (#[trigger] db[j]).path@ == p;
                assert(del.contains(p));
            }
        }
    }
    assert forall|p: Seq<char>| #[trigger] m.dom().contains(p) implies a[p] == m[p] by {
        if !ch.contains(p) {
            let i = choose|i: int| 0 <= i < disk.len() && (#[trigger] disk[i]).path@ == p;
            assert(recorded_unchanged(disk[i], db));
            let j = choose|j: int|
                0 <= j < db.len() && (#[trigger] db[j]).path@ == disk[i].path@ && db[j].hash@
                    == disk[i].hash@ && db[j].mtime_ms == disk[i].mtime_ms;
            lemma_entry_of(disk, i);
            lemma_entry_of(db, j);
        }
    }
    assert(a =~= m);
}

/// The incremental-indexing laws: a folder indexed as it is on disk has nothing to (re)index
/// and nothing deleted; every path to (re)index is on disk and every deleted path is not, so
/// no path is both.
pub proof fn lemma_diff_laws(disk: Seq<FileState>, db: Seq<FileState>)
    ensures
        changed_paths(disk, disk, disk.len() as int).len() == 0,
        deleted_paths(disk, disk, disk.len() as int).len() == 0,
        forall|i: int|
            0 <= i < changed_paths(disk, db, disk.len() as int).len() ==> has_path(
                disk,
                #[trigger] changed_paths(disk, db, disk.len() as int)[i],
            ),
        forall|i: int|
            0 <= i < deleted_paths(disk, db, db.len() as int).len() ==> !has_path(
                disk,
                #[trigger] deleted_paths(disk, db, db.len() as int)[i],
            ),
{
    lemma_changed_paths_empty_when_same(disk, disk.len() as int);
    lemma_deleted_paths_empty_when_same(disk, disk.len() as int);
    lemma_changed_are_on_disk(disk, db, disk.len() as int);
    lemma_deleted_not_on_disk(disk, db, db.len() as int);
}

/// What SHA-256 gives for a byte sequence.
pub uninterp spec fn sha256(data: Seq<u8>) -> Seq<u8>;

/// `sha2::Sha256` (`new`, `update`, `finalize`): the digest of `data`, named `sha256`, which
/// is 32 bytes long (the digest's type has that length).
#[verifier::external_body]
fn sha256_digest(data: &[u8]) -> (r: Vec<u8>)
    ensures
        r@ == sha256(data@),
        r@.len() == 32,
{
    let mut hasher = sha2::Sha256::new();
    hasher.update(data);
    hasher.finalize().to_vec()
}

/// The lowercase hexadecimal digit for `d < 16`.
pub open spec fn hex_digit(d: u8) -> char {
    if d < 10 {
        (('0' as u8) + d) as char
    } else {
        (('a' as u8) + d - 10) as char
    }
}

/// `bytes` in lowercase hexadecimal, two digits a byte.
pub open spec fn hex(bytes: Seq<u8>) -> Seq<char>
    decreases bytes.len(),
{
    if bytes.len() == 0 {
        seq![]
    } else {
        hex(bytes.drop_last()) + seq![hex_digit(bytes.last() / 16), hex_digit(bytes.last() % 16)]
    }
}

fn hex_digit_exec(d: u8) -> (c: char)
    requires
        d < 16,
    ensures
        c == hex_digit(d),
{
    if d < 10 {
        ((48u8 + d) as char)
    } else {
        ((97u8 + d - 10) as char)
    }
}

/// The SHA-256 digest of `data` in lowercase hexadecimal: how a file's content is fingerprinted.
pub fn sha256_hex(data: &[u8]) -> (r: String)
    ensures
        r@ == hex(sha256(data@)),
        r@.len() == 64,
{
    let digest = sha256_digest(data);
    let mut out: Vec<char> = Vec::new();
    let mut i: usize = 0;
    while i < digest.len()
        invariant
            i <= digest@.len(),
            out@ == hex(digest@.take(i as int)),
            out@.len() == 2 * i,
        decreases digest.len() - i,
    {
        let b = digest[i];
        out.push(hex_digit_exec(b / 16));
        out.push(hex_digit_exec(b % 16));
        proof {
            assert(digest@.take(i + 1).drop_last() =~= digest@.take(i as int));
            assert(out@ =~= hex(digest@.take(i + 1)));
        }
        i = i + 1;
    }
    proof {
        assert(digest@.take(digest@.len() as int) =~= digest@);
    }
    crate::text::string_of(out.as_slice())
}

} // verus!
