use vstd::prelude::*;
use vstd::string::StrSliceExecFns;
use vstd::string::StringExecFns;
use crate::strutil::{
    spec_contains_char, spec_ends_with, spec_starts_with, str_contains_char, str_ends_with,
    str_starts_with,
};

verus! {

/// Whether a glob pattern is accepted by the glob compiler.
pub uninterp spec fn glob_compiles(pat: Seq<char>) -> bool;

/// The regular-expression text the glob compiler produces for a pattern it
/// accepts.
pub uninterp spec fn glob_regex_of(pat: Seq<char>) -> Seq<char>;

/// Relies on globset::Glob::new and globset::Glob::regex: whether a glob
/// compiles, and the regular-expression text of one that does, are pure
/// functions of the pattern.
#[verifier::external_body]
fn compile_glob(pat: &str) -> (r: Option<String>)
    ensures
        r is Some <==> glob_compiles(pat@),
        r matches Some(s) ==> glob_regex_of(pat@) == s@,
{
    match globset::Glob::new(pat) {
        Ok(g) => Some(g.regex().to_string()),
        Err(_) => None,
    }
}

/// The bare body of a compiled glob regex: the compiler brackets its output
/// in a leading byte-mode marker with a start anchor and a trailing end
/// anchor; where both are present they are removed, otherwise the text is
/// kept whole.
pub open spec fn spec_strip_anchors(re: Seq<char>) -> Seq<char> {
    if spec_ends_with(re, "$"@) && spec_starts_with(re.drop_last(), "(?-u)^"@) {
        re.subrange("(?-u)^"@.len() as int, re.len() - 1)
    } else {
        re
    }
}

/// The pattern emitted for a glob whose regex carries a wildcard: an
/// unanchored suffix match on the body followed by the tracked extension.
pub open spec fn spec_suffix_pattern(body: Seq<char>) -> Seq<char> {
    body + "\\.toml$"@
}

/// The pattern emitted for a literal glob: the body with the tracked
/// extension must stand at the start of the path or form whole trailing
/// components after a path separator.
pub open spec fn spec_anchored_pattern(body: Seq<char>) -> Seq<char> {
    "^(.*(/|\\\\)"@ + body + "\\.toml|"@ + body + "\\.toml)$"@
}

/// The translated pattern for a compiled glob regex.
pub open spec fn spec_translate_regex(re: Seq<char>) -> Seq<char> {
    if spec_contains_char(re, '*') {
        spec_suffix_pattern(spec_strip_anchors(re))
    } else {
        spec_anchored_pattern(spec_strip_anchors(re))
    }
}

/// The translation of an (extension-stripped) glob pattern: the anchored
/// regular expression for it, or `None` for a glob that does not compile.
pub open spec fn spec_translate_glob(pat: Seq<char>) -> Option<Seq<char>> {
    if glob_compiles(pat) {
        Some(spec_translate_regex(glob_regex_of(pat)))
    } else {
        None
    }
}

/// Strips the compiler's anchors from a compiled glob regex.
fn strip_anchors<'a>(re: &'a str) -> (r: &'a str)
    ensures
        r@ == spec_strip_anchors(re@),
{
    let n: usize = re.unicode_len();
    if !str_ends_with(re, "$") {
        return re;
    }
    proof {
        reveal_strlit("$");
    }
    let head: &str = re.substring_char(0, n - 1);
    proof {
        assert(head@ =~= re@.drop_last());
    }
    if !str_starts_with(head, "(?-u)^") {
        return re;
    }
    proof {
        reveal_strlit("(?-u)^");
    }
    let body: &str = re.substring_char(6, n - 1);
    proof {
        assert(body@ =~= re@.subrange("(?-u)^"@.len() as int, re@.len() - 1));
    }
    body
}

/// Builds the consumer-facing pattern from a compiled glob regex: a
/// wildcard regex becomes an unanchored suffix pattern, a literal one an
/// anchored alternation matching at the path root or after a separator.
pub fn assemble_pattern(re: &str) -> (r: String)
    ensures
        r@ == spec_translate_regex(re@),
{
    let body: &str = strip_anchors(re);
    if str_contains_char(re, '*') {
        let mut out = String::from_str(body);
        out.append("\\.toml$");
        proof {
            assert(out@ =~= spec_suffix_pattern(body@));
        }
        out
    } else {
        let mut out = String::from_str("^(.*(/|\\\\)");
        out.append(body);
        out.append("\\.toml|");
        out.append(body);
        out.append("\\.toml)$");
        proof {
            assert(out@ =~= spec_anchored_pattern(body@));
        }
        out
    }
}

/// Translates one (extension-stripped) file-match glob into the anchored
/// regular expression its consumer expects, or `None` for a malformed glob,
/// which the caller skips.
pub fn translate_glob(pat: &str) -> (r: Option<String>)
    ensures
        r is Some <==> glob_compiles(pat@),
        r matches Some(s) ==> spec_translate_glob(pat@) == Some(s@),
{
    match compile_glob(pat) {
        Some(re) => Some(assemble_pattern(re.as_str())),
        None => None,
    }
}

} // verus!
