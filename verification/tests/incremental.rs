use search_agent::incremental::{diff_paths, has_unique_paths, sha256_hex, FileState};

fn state(path: &str, hash: &str, mtime_ms: i64) -> FileState {
    FileState { path: path.into(), hash: hash.into(), mtime_ms }
}

#[test]
fn detects_changed_and_deleted() {
    let disk = vec![state("a", "h1", 1)];
    let db = vec![state("a", "old", 1), state("b", "h2", 2)];
    let diff = diff_paths(&disk, &db);
    assert_eq!(diff.changed_or_new, vec!["a"]);
    assert_eq!(diff.deleted, vec!["b"]);
}

#[test]
fn unchanged_folder_has_nothing_to_do() {
    let disk = vec![state("a", "h1", 1), state("b", "h2", 2)];
    let diff = diff_paths(&disk, &disk.clone());
    assert!(diff.changed_or_new.is_empty());
    assert!(diff.deleted.is_empty());
}

#[test]
fn new_file_and_newer_mtime_are_reindexed() {
    let disk = vec![state("a", "h1", 5), state("c", "h3", 1)];
    let db = vec![state("a", "h1", 4)];
    let diff = diff_paths(&disk, &db);
    assert_eq!(diff.changed_or_new, vec!["a", "c"]);
    assert!(diff.deleted.is_empty());
}

#[test]
fn sha256_hex_of_known_inputs() {
    assert_eq!(
        sha256_hex(b""),
        "e3b0c44298fc1c149afbf4c8996fb92427ae41e4649b934ca495991b7852b855"
    );
    assert_eq!(
        sha256_hex(b"abc"),
        "ba7816bf8f01cfea414140de5dae2223b00361a396177a9cb410ff61f20015ad"
    );
}

#[test]
fn duplicate_paths_are_seen() {
    assert!(has_unique_paths(&[state("a", "h", 1), state("b", "h", 1)]));
    assert!(!has_unique_paths(&[state("a", "h", 1), state("b", "h", 1), state("a", "g", 2)]));
    assert!(has_unique_paths(&[]));
}

#[test]
fn applying_the_diff_gives_the_disk() {
    let disk = vec![state("a", "h1", 1), state("c", "h3", 3), state("d", "h4", 4)];
    let db = vec![state("a", "old", 1), state("b", "h2", 2), state("d", "h4", 4)];
    let diff = diff_paths(&disk, &db);
    let mut applied: Vec<(String, String, i64)> = db
        .iter()
        .filter(|f| !diff.deleted.contains(&f.path) && !diff.changed_or_new.contains(&f.path))
        .map(|f| (f.path.clone(), f.hash.clone(), f.mtime_ms))
        .collect();
    for p in &diff.changed_or_new {
        let f = disk.iter().find(|f| &f.path == p).unwrap();
        applied.push((f.path.clone(), f.hash.clone(), f.mtime_ms));
    }
    applied.sort();
    let mut expected: Vec<(String, String, i64)> =
        disk.iter().map(|f| (f.path.clone(), f.hash.clone(), f.mtime_ms)).collect();
    expected.sort();
    assert_eq!(applied, expected);
}
