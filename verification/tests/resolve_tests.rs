use schema_index::index::{assemble_index, check_all_resolved, IndexError};
use schema_index::record::{ExtraInfo, SchemaDoc};
use schema_index::resolve::{resolve_history, CommitRecord, ResolvedFile, TreeEntry};

fn entry(dir: &str, name: &str) -> TreeEntry {
    TreeEntry { dir: dir.to_string(), name: name.to_string() }
}

fn doc() -> SchemaDoc {
    SchemaDoc {
        title: Some("t".to_string()),
        description: None,
        extra: ExtraInfo { authors: Vec::new(), patterns: Vec::new() },
    }
}

#[test]
fn each_file_committed_once_resolves_with_its_commit_time() {
    // Two files, both committed exactly once, in the same commit.
    let commits = vec![CommitRecord {
        time_unix: 1700000000,
        entries: vec![entry("", "a.json"), entry("sub/", "b.json")],
    }];
    let mut pending = vec!["repo/a.json".to_string(), "repo/sub/b.json".to_string()];
    let resolved = resolve_history("repo", &commits, &mut pending);
    assert!(pending.is_empty());
    assert_eq!(resolved.len(), 2);
    assert_eq!(resolved[0].path, "repo/a.json");
    assert_eq!(resolved[0].name, "a.json");
    assert_eq!(resolved[0].time_unix, 1700000000);
    assert_eq!(resolved[1].path, "repo/sub/b.json");
    assert_eq!(resolved[1].time_unix, 1700000000);
}

#[test]
fn unchanged_file_takes_newest_commit_time() {
    // The same file is present in two commits; traversal is newest first,
    // so the newer time wins even though the older commit introduced it.
    let commits = vec![
        CommitRecord { time_unix: 2000, entries: vec![entry("", "a.json")] },
        CommitRecord { time_unix: 1000, entries: vec![entry("", "a.json")] },
    ];
    let mut pending = vec!["repo/a.json".to_string()];
    let resolved = resolve_history("repo", &commits, &mut pending);
    assert!(pending.is_empty());
    assert_eq!(resolved.len(), 1);
    assert_eq!(resolved[0].time_unix, 2000);
}

#[test]
fn tree_paths_are_normalized_before_matching() {
    // A doubled separator in the joined path collapses, so the candidate
    // still matches.
    let commits = vec![CommitRecord { time_unix: 5, entries: vec![entry("", "a.json")] }];
    let mut pending = vec!["repo/a.json".to_string()];
    let resolved = resolve_history("repo/", &commits, &mut pending);
    assert!(pending.is_empty());
    assert_eq!(resolved[0].path, "repo/a.json");
    assert_eq!(resolved[0].time_unix, 5);
}

#[test]
fn uncommitted_candidate_is_an_integrity_error() {
    let commits = vec![CommitRecord { time_unix: 10, entries: vec![entry("", "a.json")] }];
    let mut pending = vec!["repo/a.json".to_string(), "repo/ghost.json".to_string()];
    let resolved = resolve_history("repo", &commits, &mut pending);
    assert_eq!(resolved.len(), 1);
    assert_eq!(pending, vec!["repo/ghost.json".to_string()]);
    assert!(matches!(check_all_resolved(&pending), Err(IndexError::UncommittedFiles)));

    let docs = vec![doc()];
    let out = assemble_index(
        &pending,
        "https://example.com/schemas",
        &resolved,
        docs,
        None,
        0,
    );
    assert!(matches!(out, Err(IndexError::UncommittedFiles)));
}

#[test]
fn commit_after_resolution_does_not_override() {
    // Once a path is locked in at its first sighting, older commits are
    // ignored for it; a second candidate is still picked up later.
    let commits = vec![
        CommitRecord { time_unix: 300, entries: vec![entry("", "a.json")] },
        CommitRecord { time_unix: 200, entries: vec![entry("", "a.json"), entry("", "b.json")] },
        CommitRecord { time_unix: 100, entries: vec![entry("", "b.json")] },
    ];
    let mut pending = vec!["repo/a.json".to_string(), "repo/b.json".to_string()];
    let resolved = resolve_history("repo", &commits, &mut pending);
    assert!(pending.is_empty());
    assert_eq!(resolved.len(), 2);
    assert_eq!(resolved[0].path, "repo/a.json");
    assert_eq!(resolved[0].time_unix, 300);
    assert_eq!(resolved[1].path, "repo/b.json");
    assert_eq!(resolved[1].time_unix, 200);
}

#[test]
fn local_entry_fields_are_exact() {
    let resolved = vec![ResolvedFile {
        path: "repo/a.json".to_string(),
        name: "a.json".to_string(),
        time_unix: 0,
    }];
    let docs = vec![doc()];
    let pending: Vec<String> = Vec::new();
    let ix = assemble_index(&pending, "https://example.com/schemas/", &resolved, docs, None, 7)
        .unwrap();
    assert_eq!(ix.schemas.len(), 1);
    let e = &ix.schemas[0];
    // The base URL is slash-trimmed before the file name is joined on.
    assert_eq!(e.url, "https://example.com/schemas/a.json");
    assert_eq!(e.title.as_deref(), Some("t"));
    assert_eq!(e.description, None);
    assert_eq!(e.updated.as_deref(), Some("1970-01-01T00:00:00Z"));
    let expected_hash = hex::encode(<sha2::Sha256 as sha2::Digest>::digest(e.url.as_bytes()));
    assert_eq!(e.url_hash, expected_hash);
    assert!(e.extra.authors.is_empty());
    assert!(e.extra.patterns.is_empty());
}

#[test]
fn two_runs_yield_identical_local_entries() {
    let commits = vec![CommitRecord { time_unix: 1234, entries: vec![entry("", "a.json")] }];
    let mut out: Vec<(String, String, Option<String>, Option<String>)> = Vec::new();
    for _ in 0..2 {
        let mut pending = vec!["repo/a.json".to_string()];
        let resolved = resolve_history("repo", &commits, &mut pending);
        let docs = vec![doc()];
        let ix = assemble_index(&pending, "https://example.com/s", &resolved, docs, None, 99)
            .unwrap();
        let e = &ix.schemas[0];
        out.push((e.url.clone(), e.url_hash.clone(), e.updated.clone(), e.title.clone()));
    }
    assert_eq!(out[0], out[1]);
}

#[test]
fn no_candidates_yield_an_empty_index() {
    let commits = vec![CommitRecord { time_unix: 1, entries: vec![entry("", "a.json")] }];
    let mut pending: Vec<String> = Vec::new();
    let resolved = resolve_history("repo", &commits, &mut pending);
    assert!(resolved.is_empty());
    assert!(pending.is_empty());
    let ix = assemble_index(&pending, "https://example.com/s", &resolved, Vec::new(), None, 0)
        .unwrap();
    assert!(ix.schemas.is_empty());
}
