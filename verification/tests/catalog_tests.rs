use schema_index::catalog::{build_catalog_record, entry_eligible, integrate_catalog, CatalogEntry};
use schema_index::index::assemble_index;
use schema_index::record::{ExtraInfo, SchemaDoc};
use schema_index::resolve::ResolvedFile;

fn catalog_entry(name: &str, url: &str, globs: &[&str]) -> CatalogEntry {
    CatalogEntry {
        name: Some(name.to_string()),
        description: Some(format!("{} schema", name)),
        url: url.to_string(),
        file_match: globs.iter().map(|g| g.to_string()).collect(),
    }
}

#[test]
fn entry_without_toml_globs_is_excluded() {
    let es = vec![
        catalog_entry("json-only", "https://cat.example/a.json", &["a.json", "*.yml"]),
        catalog_entry("toml-one", "https://cat.example/b.json", &["b.toml"]),
    ];
    assert!(!entry_eligible(&es[0]));
    assert!(entry_eligible(&es[1]));
    let out = integrate_catalog(&es, 0);
    assert_eq!(out.len(), 1);
    assert_eq!(out[0].title.as_deref(), Some("toml-one"));
    assert_eq!(out[0].url, "https://cat.example/b.json");
}

#[test]
fn catalog_record_fields_are_exact() {
    let e = catalog_entry("cargo", "https://cat.example/cargo.json", &["Cargo.toml", "*.json"]);
    let rec = build_catalog_record(&e, 0);
    assert_eq!(rec.title.as_deref(), Some("cargo"));
    assert_eq!(rec.description.as_deref(), Some("cargo schema"));
    assert_eq!(rec.url, "https://cat.example/cargo.json");
    assert_eq!(rec.updated.as_deref(), Some("1970-01-01T00:00:00Z"));
    let expected_hash = hex::encode(<sha2::Sha256 as sha2::Digest>::digest(rec.url.as_bytes()));
    assert_eq!(rec.url_hash, expected_hash);
    assert_eq!(
        rec.extra.authors,
        vec!["automatically included from https://schemastore.org".to_string()]
    );
    // Only the .toml glob is kept; "Cargo.toml" strips to the literal
    // "Cargo", which carries no wildcard.
    assert_eq!(
        rec.extra.patterns,
        vec!["^(.*(/|\\\\)Cargo\\.toml|Cargo\\.toml)$".to_string()]
    );
}

#[test]
fn glob_that_fails_to_compile_is_skipped_not_fatal() {
    let e = catalog_entry("odd", "https://cat.example/odd.json", &["[.toml", "ok*.toml"]);
    let rec = build_catalog_record(&e, 0);
    // The malformed glob is dropped; the entry itself stays, with the
    // surviving pattern only.
    assert_eq!(rec.extra.patterns, vec!["ok.*\\.toml$".to_string()]);

    let all_bad = catalog_entry("bad", "https://cat.example/bad.json", &["[.toml"]);
    let rec2 = build_catalog_record(&all_bad, 0);
    assert!(rec2.extra.patterns.is_empty());
    assert!(entry_eligible(&all_bad));
}

#[test]
fn catalog_entries_are_appended_after_local_entries() {
    let resolved = vec![ResolvedFile {
        path: "repo/a.json".to_string(),
        name: "a.json".to_string(),
        time_unix: 50,
    }];
    let docs = vec![SchemaDoc {
        title: None,
        description: None,
        extra: ExtraInfo { authors: Vec::new(), patterns: Vec::new() },
    }];
    let pending: Vec<String> = Vec::new();
    let cat = vec![catalog_entry("remote", "https://cat.example/r.json", &["r.toml"])];
    let ix = assemble_index(&pending, "https://example.com/s", &resolved, docs, Some(&cat), 60)
        .unwrap();
    assert_eq!(ix.schemas.len(), 2);
    assert_eq!(ix.schemas[0].url, "https://example.com/s/a.json");
    assert_eq!(ix.schemas[1].url, "https://cat.example/r.json");
    assert_eq!(ix.schemas[1].title.as_deref(), Some("remote"));
}

#[test]
fn missing_catalog_leaves_only_local_entries() {
    // The catalog fetch failing (or being disabled) hands the assembler no
    // catalog; the run still succeeds with the local entries alone.
    let resolved = vec![ResolvedFile {
        path: "repo/a.json".to_string(),
        name: "a.json".to_string(),
        time_unix: 50,
    }];
    let docs = vec![SchemaDoc {
        title: None,
        description: None,
        extra: ExtraInfo { authors: Vec::new(), patterns: Vec::new() },
    }];
    let pending: Vec<String> = Vec::new();
    let ix = assemble_index(&pending, "https://example.com/s", &resolved, docs, None, 60).unwrap();
    assert_eq!(ix.schemas.len(), 1);
    assert_eq!(ix.schemas[0].url, "https://example.com/s/a.json");
}

#[test]
fn document_metadata_passes_through() {
    let resolved = vec![ResolvedFile {
        path: "repo/a.json".to_string(),
        name: "a.json".to_string(),
        time_unix: 50,
    }];
    let docs = vec![SchemaDoc {
        title: Some("Title".to_string()),
        description: Some("Desc".to_string()),
        extra: ExtraInfo {
            authors: vec!["someone".to_string()],
            patterns: vec!["^x$".to_string()],
        },
    }];
    let pending: Vec<String> = Vec::new();
    let ix = assemble_index(&pending, "https://example.com/s", &resolved, docs, None, 60).unwrap();
    let e = &ix.schemas[0];
    assert_eq!(e.title.as_deref(), Some("Title"));
    assert_eq!(e.description.as_deref(), Some("Desc"));
    assert_eq!(e.extra.authors, vec!["someone".to_string()]);
    assert_eq!(e.extra.patterns, vec!["^x$".to_string()]);
}
