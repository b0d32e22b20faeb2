use schema_index::globre::{assemble_pattern, translate_glob};
use schema_index::strutil::{trim_end_char, trim_end_str};

#[test]
fn wildcard_glob_is_unanchored_suffix() {
    // The glob compiler renders `*` as `(?-u)^.*$`; the translation strips
    // the anchors and appends the extension, anchored only at the end.
    assert_eq!(translate_glob("*"), Some(".*\\.toml$".to_string()));
}

#[test]
fn wildcard_glob_keeps_own_prefix() {
    assert_eq!(translate_glob("foo*"), Some("foo.*\\.toml$".to_string()));
}

#[test]
fn literal_glob_is_anchored_alternation() {
    assert_eq!(
        translate_glob("foo/bar"),
        Some("^(.*(/|\\\\)foo/bar\\.toml|foo/bar\\.toml)$".to_string())
    );
}

#[test]
fn literal_pattern_matches_root_and_nested_only() {
    let pat = translate_glob("foo/bar").unwrap();
    let re = regex::Regex::new(&pat).unwrap();
    assert!(re.is_match("foo/bar.toml"));
    assert!(re.is_match("deep/dir/foo/bar.toml"));
    assert!(!re.is_match("xfoo/bar.toml"));
    assert!(!re.is_match("foo/bar.json"));
}

#[test]
fn wildcard_pattern_matches_any_suffix() {
    let pat = translate_glob("*").unwrap();
    let re = regex::Regex::new(&pat).unwrap();
    assert!(re.is_match("anything.toml"));
    assert!(re.is_match("some/dir/anything.toml"));
    assert!(!re.is_match("anything.json"));
}

#[test]
fn malformed_glob_is_skipped() {
    assert_eq!(translate_glob("["), None);
}

#[test]
fn assemble_pattern_on_raw_regex() {
    assert_eq!(assemble_pattern("(?-u)^.*$"), ".*\\.toml$");
    assert_eq!(
        assemble_pattern("(?-u)^a$"),
        "^(.*(/|\\\\)a\\.toml|a\\.toml)$"
    );
    // Text without the compiler's anchors is kept whole.
    assert_eq!(assemble_pattern("plain"), "^(.*(/|\\\\)plain\\.toml|plain\\.toml)$");
}

#[test]
fn trim_helpers() {
    assert_eq!(trim_end_char("https://example.com/schemas///", '/'), "https://example.com/schemas");
    assert_eq!(trim_end_char("none", '/'), "none");
    assert_eq!(trim_end_str("a.toml", ".toml"), "a");
    assert_eq!(trim_end_str("a.toml.toml", ".toml"), "a");
    assert_eq!(trim_end_str("b.json", ".toml"), "b.json");
}
