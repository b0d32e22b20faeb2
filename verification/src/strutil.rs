use vstd::prelude::*;
use vstd::string::StrSliceExecFns;
use vstd::string::StringExecFns;

verus! {

/// `s` ends with `suffix`.
pub open spec fn spec_ends_with(s: Seq<char>, suffix: Seq<char>) -> bool {
    suffix.len() <= s.len() && s.skip(s.len() - suffix.len()) == suffix
}

/// `s` starts with `prefix`.
pub open spec fn spec_starts_with(s: Seq<char>, prefix: Seq<char>) -> bool {
    prefix.len() <= s.len() && s.take(prefix.len() as int) == prefix
}

/// Some character of `s` is `c`.
pub open spec fn spec_contains_char(s: Seq<char>, c: char) -> bool {
    exists|i: int| 0 <= i < s.len() && s[i] == c
}

/// `s` with every trailing occurrence of the character `c` removed.
pub open spec fn spec_trim_end_char(s: Seq<char>, c: char) -> Seq<char>
    decreases s.len(),
{
    if s.len() > 0 && s.last() == c {
        spec_trim_end_char(s.drop_last(), c)
    } else {
        s
    }
}

/// `s` with every trailing repetition of the (non-empty) string `suf`
/// removed.
pub open spec fn spec_trim_end_seq(s: Seq<char>, suf: Seq<char>) -> Seq<char>
    decreases s.len(),
{
    if 0 < suf.len() <= s.len() && spec_ends_with(s, suf) {
        spec_trim_end_seq(s.take(s.len() - suf.len()), suf)
    } else {
        s
    }
}

/// Character-by-character string equality.
pub fn str_eq(a: &str, b: &str) -> (r: bool)
    ensures
        r == (a@ == b@),
{
    let n: usize = a.unicode_len();
    let m: usize = b.unicode_len();
    if n != m {
        proof {
            assert(a@ != b@);
        }
        return false;
    }
    let mut i: usize = 0;
    while i < n
        invariant
            i <= n,
            n == a@.len(),
            n == b@.len(),
            forall|j: int| 0 <= j < i ==> a@[j] == b@[j],
        decreases n - i,
    {
        if a.get_char(i) != b.get_char(i) {
            return false;
        }
        i += 1;
    }
    proof {
        assert(a@ =~= b@);
    }
    true
}

pub fn str_ends_with(s: &str, suffix: &str) -> (r: bool)
    ensures
        r == spec_ends_with(s@, suffix@),
{
    let n: usize = s.unicode_len();
    let m: usize = suffix.unicode_len();
    if m > n {
        return false;
    }
    let tail: &str = s.substring_char(n - m, n);
    proof {
        assert(tail@ =~= s@.skip(s@.len() - suffix@.len()));
    }
    str_eq(tail, suffix)
}

pub fn str_starts_with(s: &str, prefix: &str) -> (r: bool)
    ensures
        r == spec_starts_with(s@, prefix@),
{
    let n: usize = s.unicode_len();
    let m: usize = prefix.unicode_len();
    if m > n {
        return false;
    }
    let head: &str = s.substring_char(0, m);
    proof {
        assert(head@ =~= s@.take(prefix@.len() as int));
    }
    str_eq(head, prefix)
}

pub fn str_contains_char(s: &str, c: char) -> (r: bool)
    ensures
        r == spec_contains_char(s@, c),
{
    let n: usize = s.unicode_len();
    let mut i: usize = 0;
    while i < n
        invariant
            i <= n,
            n == s@.len(),
            forall|j: int| 0 <= j < i ==> s@[j] != c,
        decreases n - i,
    {
        if s.get_char(i) == c {
            return true;
        }
        i += 1;
    }
    false
}

/// Removes every trailing occurrence of the character `c` from `s`.
pub fn trim_end_char(s: &str, c: char) -> (r: String)
    ensures
        r@ == spec_trim_end_char(s@, c),
{
    let mut end: usize = s.unicode_len();
    proof {
        assert(s@.take(s@.len() as int) =~= s@);
    }
    while end > 0 && s.get_char(end - 1) == c
        invariant
            end <= s@.len(),
            spec_trim_end_char(s@.take(end as int), c) == spec_trim_end_char(s@, c),
        decreases end,
    {
        proof {
            let t = s@.take(end as int);
            assert(t.last() == c);
            assert(t.drop_last() =~= s@.take(end as int - 1));
        }
        end -= 1;
    }
    let sub: &str = s.substring_char(0, end);
    proof {
        let t = s@.take(end as int);
        assert(sub@ =~= t);
        if end > 0 {
            assert(t.last() == s@[end as int - 1]);
        }
        assert(spec_trim_end_char(t, c) == t);
    }
    String::from_str(sub)
}

/// Removes every trailing repetition of the non-empty string `suf` from `s`.
pub fn trim_end_str(s: &str, suf: &str) -> (r: String)
    requires
        suf@.len() > 0,
    ensures
        r@ == spec_trim_end_seq(s@, suf@),
{
    let m: usize = suf.unicode_len();
    let mut end: usize = s.unicode_len();
    proof {
        assert(s@.take(s@.len() as int) =~= s@);
    }
    loop
        invariant
            end <= s@.len(),
            m == suf@.len(),
            0 < m,
            spec_trim_end_seq(s@.take(end as int), suf@) == spec_trim_end_seq(s@, suf@),
        ensures
            end <= s@.len(),
            spec_trim_end_seq(s@.take(end as int), suf@) == s@.take(end as int),
            spec_trim_end_seq(s@, suf@) == s@.take(end as int),
        decreases end,
    {
        if end < m {
            proof {
                assert(spec_trim_end_seq(s@.take(end as int), suf@) == s@.take(end as int));
            }
            break;
        }
        let tail: &str = s.substring_char(end - m, end);
        proof {
            let t = s@.take(end as int);
            assert(tail@ =~= t.skip(t.len() - suf@.len()));
        }
        if !str_eq(tail, suf) {
            proof {
                assert(!spec_ends_with(s@.take(end as int), suf@));
            }
            break;
        }
        proof {
            let t = s@.take(end as int);
            assert(spec_ends_with(t, suf@));
            assert(t.take(t.len() - suf@.len()) =~= s@.take(end as int - m as int));
        }
        end -= m;
    }
    let sub: &str = s.substring_char(0, end);
    proof {
        assert(sub@ =~= s@.take(end as int));
    }
    String::from_str(sub)
}

} // verus!
