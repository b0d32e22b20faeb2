use vstd::prelude::*;
use vstd::string::StringExecFns;

verus! {

/// The lexically cleaned form of a path: repeated separators collapsed,
/// `.` components removed, `..` components applied where possible.
pub uninterp spec fn cleaned_of(path: Seq<char>) -> Seq<char>;

/// Relies on path_clean::clean: a purely lexical normalization of a path
/// string, so its result depends on the characters of the path alone.
#[verifier::external_body]
pub fn clean_path(path: &str) -> (r: String)
    ensures
        r@ == cleaned_of(path@),
{
    match path_clean::clean(path).to_str() {
        Some(s) => s.to_string(),
        None => String::new(),
    }
}

/// The full normalized path of one tree entry: the repository base joined
/// with the entry's directory prefix and file name, then cleaned.
pub open spec fn spec_entry_path(base: Seq<char>, dir: Seq<char>, name: Seq<char>) -> Seq<char> {
    cleaned_of(base + "/"@ + dir + name)
}

/// Joins a repository base path, a directory prefix (empty, or ending with
/// a separator), and a file name, and normalizes the result.
pub fn join_entry_path(base: &str, dir: &str, name: &str) -> (r: String)
    ensures
        r@ == spec_entry_path(base@, dir@, name@),
{
    let mut s = String::new();
    s.append(base);
    s.append("/");
    s.append(dir);
    s.append(name);
    proof {
        assert(s@ =~= base@ + "/"@ + dir@ + name@);
    }
    clean_path(s.as_str())
}

} // verus!
