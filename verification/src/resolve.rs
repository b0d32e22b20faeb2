use vstd::prelude::*;
use crate::paths::{join_entry_path, spec_entry_path};
use crate::strutil::str_eq;

verus! {

/// One entry of a commit's snapshot tree: the directory prefix the walk
/// reports (empty, or ending with a separator) and the file's base name.
pub struct TreeEntry {
    pub dir: String,
    pub name: String,
}

pub ghost struct TreeEntryView {
    pub dir: Seq<char>,
    pub name: Seq<char>,
}

impl View for TreeEntry {
    type V = TreeEntryView;

    open spec fn view(&self) -> TreeEntryView {
        TreeEntryView { dir: self.dir@, name: self.name@ }
    }
}

impl DeepView for TreeEntry {
    type V = TreeEntryView;

    open spec fn deep_view(&self) -> TreeEntryView {
        self.view()
    }
}

/// One point of repository history: its timezone-normalized commit time in
/// seconds since the epoch, and its full snapshot tree.
pub struct CommitRecord {
    pub time_unix: i64,
    pub entries: Vec<TreeEntry>,
}

pub ghost struct CommitRecordView {
    pub time_unix: int,
    pub entries: Seq<TreeEntryView>,
}

impl View for CommitRecord {
    type V = CommitRecordView;

    open spec fn view(&self) -> CommitRecordView {
        CommitRecordView { time_unix: self.time_unix as int, entries: self.entries.deep_view() }
    }
}

impl DeepView for CommitRecord {
    type V = CommitRecordView;

    open spec fn deep_view(&self) -> CommitRecordView {
        self.view()
    }
}

/// A candidate file confirmed in history: its normalized path, its base
/// name as the tree reports it, and the resolving commit's time.
pub struct ResolvedFile {
    pub path: String,
    pub name: String,
    pub time_unix: i64,
}

pub ghost struct ResolvedFileView {
    pub path: Seq<char>,
    pub name: Seq<char>,
    pub time_unix: int,
}

impl View for ResolvedFile {
    type V = ResolvedFileView;

    open spec fn view(&self) -> ResolvedFileView {
        ResolvedFileView { path: self.path@, name: self.name@, time_unix: self.time_unix as int }
    }
}

impl DeepView for ResolvedFile {
    type V = ResolvedFileView;

    open spec fn deep_view(&self) -> ResolvedFileView {
        self.view()
    }
}

/// The resolver's state: what has been confirmed so far, in resolution
/// order, and the candidate paths still pending.
pub ghost struct ResolveState {
    pub resolved: Seq<ResolvedFileView>,
    pub pending: Seq<Seq<char>>,
}

/// `s` with its first occurrence of `x` removed (and `s` itself when `x`
/// does not occur).
pub open spec fn remove_first(s: Seq<Seq<char>>, x: Seq<char>) -> Seq<Seq<char>>
    decreases s.len(),
{
    if s.len() == 0 {
        s
    } else if s[0] == x {
        s.skip(1)
    } else {
        seq![s[0]] + remove_first(s.skip(1), x)
    }
}

/// The normalized path of the tree entry `e` under the repository base.
pub open spec fn entry_path_of(base: Seq<char>, e: TreeEntryView) -> Seq<char> {
    spec_entry_path(base, e.dir, e.name)
}

/// One commit's tree walked over the resolver state: each entry whose
/// normalized path is still pending moves that path out of the pending set
/// and appends a resolution carrying this commit's time.
pub open spec fn spec_resolve_entries(
    base: Seq<char>,
    time: int,
    entries: Seq<TreeEntryView>,
    st: ResolveState,
) -> ResolveState
    decreases entries.len(),
{
    if entries.len() == 0 {
        st
    } else {
        let p = entry_path_of(base, entries[0]);
        let st1 = if st.pending.contains(p) {
            ResolveState {
                resolved: st.resolved + seq![
                    ResolvedFileView { path: p, name: entries[0].name, time_unix: time },
                ],
                pending: remove_first(st.pending, p),
            }
        } else {
            st
        };
        spec_resolve_entries(base, time, entries.skip(1), st1)
    }
}

/// History walked newest-first over the resolver state: each commit's tree
/// is inspected in turn, and a pending path is locked to the first commit
/// whose tree holds it.
pub open spec fn spec_resolve_commits(
    base: Seq<char>,
    commits: Seq<CommitRecordView>,
    st: ResolveState,
) -> ResolveState
    decreases commits.len(),
{
    if commits.len() == 0 {
        st
    } else {
        spec_resolve_commits(
            base,
            commits.skip(1),
            spec_resolve_entries(base, commits[0].time_unix, commits[0].entries, st),
        )
    }
}

/// The tree of commit `c` holds the pending path `p`.
pub open spec fn commit_contains(base: Seq<char>, c: CommitRecordView, p: Seq<char>) -> bool {
    exists|j: int| 0 <= j < c.entries.len() && entry_path_of(base, c.entries[j]) == p
}

/// Removes the first candidate equal to `p` from `pending`, reporting
/// whether one was there.
fn remove_candidate(pending: &mut Vec<String>, p: &String) -> (r: bool)
    ensures
        r == old(pending).deep_view().contains(p@),
        final(pending).deep_view() == remove_first(old(pending).deep_view(), p@),
{
    let ghost before = pending.deep_view();
    let mut i: usize = 0;
    while i < pending.len()
        invariant
            i <= pending@.len(),
            before == old(pending).deep_view(),
            pending.deep_view() == before,
            forall|j: int| 0 <= j < i ==> before[j] != p@,
        decreases pending@.len() - i,
    {
        if str_eq(pending[i].as_str(), p.as_str()) {
            proof {
                assert(before[i as int] == pending@[i as int]@);
                assert(before[i as int] == p@);
                assert(before.contains(p@));
                lemma_remove_first_at(before, p@, i as int);
            }
            let ghost prev = pending@;
            pending.remove(i);
            proof {
                let after = pending.deep_view();
                assert(after.len() == before.len() - 1);
                assert forall|k: int| 0 <= k < after.len() implies after[k] == before.remove(
                    i as int,
                )[k] by {
                    if k < i as int {
                        assert(pending@[k] == prev[k]);
                    } else {
                        assert(pending@[k] == prev[k + 1]);
                    }
                }
                assert(after =~= before.remove(i as int));
            }
            return true;
        }
        i += 1;
    }
    proof {
        assert forall|j: int| 0 <= j < before.len() implies before[j] != p@ by {}
        assert(!before.contains(p@));
        lemma_remove_first_absent(before, p@);
    }
    false
}

/// Where `i` is the first index of `x` in `s`, removing the first
/// occurrence of `x` is removal at `i`.
proof fn lemma_remove_first_at(s: Seq<Seq<char>>, x: Seq<char>, i: int)
    requires
        0 <= i < s.len(),
        s[i] == x,
        forall|j: int| 0 <= j < i ==> s[j] != x,
    ensures
        remove_first(s, x) == s.remove(i),
    decreases i,
{
    if i == 0 {
        assert(remove_first(s, x) == s.skip(1));
        assert(s.skip(1) =~= s.remove(0));
    } else {
        assert(s[0] != x);
        lemma_remove_first_at(s.skip(1), x, i - 1);
        assert(seq![s[0]] + s.skip(1).remove(i - 1) =~= s.remove(i));
    }
}

/// Removing an absent element changes nothing.
proof fn lemma_remove_first_absent(s: Seq<Seq<char>>, x: Seq<char>)
    requires
        !s.contains(x),
    ensures
        remove_first(s, x) == s,
    decreases s.len(),
{
    if s.len() > 0 {
        assert(s[0] != x);
        assert(forall|j: int| 0 <= j < s.skip(1).len() ==> s.skip(1)[j] == s[j + 1]);
        assert(!s.skip(1).contains(x));
        lemma_remove_first_absent(s.skip(1), x);
        assert(seq![s[0]] + s.skip(1) =~= s);
    }
}

/// Walks one commit's snapshot tree: every tree entry whose normalized
/// path is still pending is confirmed at this commit's time and appended
/// to `resolved`; the walk stops early once nothing is pending.
pub fn resolve_commit(
    base: &str,
    commit: &CommitRecord,
    pending: &mut Vec<String>,
    resolved: &mut Vec<ResolvedFile>,
)
    ensures
        (ResolveState {
            resolved: final(resolved).deep_view(),
            pending: final(pending).deep_view(),
        } == spec_resolve_entries(
            base@,
            commit@.time_unix,
            commit@.entries,
            ResolveState {
                resolved: old(resolved).deep_view(),
                pending: old(pending).deep_view(),
            },
        )),
{
    let ghost st0 = ResolveState {
        resolved: old(resolved).deep_view(),
        pending: old(pending).deep_view(),
    };
    let ghost time = commit@.time_unix;
    let mut j: usize = 0;
    proof {
        assert(commit@.entries.skip(0) =~= commit@.entries);
    }
    while j < commit.entries.len() && pending.len() > 0
        invariant
            j <= commit@.entries.len(),
            time == commit@.time_unix,
            st0 == (ResolveState {
                resolved: old(resolved).deep_view(),
                pending: old(pending).deep_view(),
            }),
            (spec_resolve_entries(
                base@,
                time,
                commit@.entries.skip(j as int),
                ResolveState { resolved: resolved.deep_view(), pending: pending.deep_view() },
            ) == spec_resolve_entries(base@, time, commit@.entries, st0)),
        decreases commit@.entries.len() - j,
    {
        let ghost j0 = j as int;
        let ghost es = commit@.entries;
        let entry: &TreeEntry = &commit.entries[j];
        let p: String = join_entry_path(base, entry.dir.as_str(), entry.name.as_str());
        let ghost pre = ResolveState {
            resolved: resolved.deep_view(),
            pending: pending.deep_view(),
        };
        let ghost pv = p@;
        proof {
            assert(es.skip(j0)[0] == es[j0]);
            assert(entry@ == es[j0]);
            assert(pv == entry_path_of(base@, es[j0]));
        }
        let was_pending: bool = remove_candidate(pending, &p);
        if was_pending {
            let rf = ResolvedFile {
                path: p,
                name: entry.name.clone(),
                time_unix: commit.time_unix,
            };
            let ghost grf = rf;
            let ghost prev = resolved@;
            proof {
                assert(grf@ == ResolvedFileView { path: pv, name: es[j0].name, time_unix: time });
            }
            resolved.push(rf);
            proof {
                let target = pre.resolved + seq![
                    ResolvedFileView { path: pv, name: es[j0].name, time_unix: time },
                ];
                let after = resolved.deep_view();
                assert(resolved@ == prev.push(grf));
                assert(after.len() == target.len());
                assert forall|k: int| 0 <= k < after.len() implies after[k] == target[k] by {
                    if k < prev.len() {
                        assert(resolved@[k] == prev[k]);
                    } else {
                        assert(resolved@[k] == grf);
                    }
                }
                assert(after =~= target);
            }
        }
        proof {
            let stj = spec_resolve_entries(base@, time, es.skip(j0), pre);
            let st1 = if pre.pending.contains(pv) {
                ResolveState {
                    resolved: pre.resolved + seq![
                        ResolvedFileView { path: pv, name: es[j0].name, time_unix: time },
                    ],
                    pending: remove_first(pre.pending, pv),
                }
            } else {
                pre
            };
            if !pre.pending.contains(pv) {
                lemma_remove_first_absent(pre.pending, pv);
            }
            assert(ResolveState {
                resolved: resolved.deep_view(),
                pending: pending.deep_view(),
            } == st1);
            assert(es.skip(j0).skip(1) =~= es.skip(j0 + 1));
            assert(stj == spec_resolve_entries(base@, time, es.skip(j0 + 1), st1));
        }
        j += 1;
    }
    proof {
        let cur = ResolveState { resolved: resolved.deep_view(), pending: pending.deep_view() };
        if j < commit@.entries.len() {
            assert(pending.deep_view().len() == 0);
            lemma_resolve_entries_nothing_pending(base@, time, commit@.entries.skip(j as int), cur);
        } else {
            assert(commit@.entries.skip(j as int) =~= Seq::<TreeEntryView>::empty());
        }
    }
}

/// With nothing pending, a tree walk changes nothing.
proof fn lemma_resolve_entries_nothing_pending(
    base: Seq<char>,
    time: int,
    entries: Seq<TreeEntryView>,
    st: ResolveState,
)
    requires
        st.pending.len() == 0,
    ensures
        spec_resolve_entries(base, time, entries, st) == st,
    decreases entries.len(),
{
    if entries.len() > 0 {
        assert(!st.pending.contains(entry_path_of(base, entries[0])));
        lemma_resolve_entries_nothing_pending(base, time, entries.skip(1), st);
    }
}

/// With nothing pending, walking history changes nothing.
proof fn lemma_resolve_commits_nothing_pending(
    base: Seq<char>,
    commits: Seq<CommitRecordView>,
    st: ResolveState,
)
    requires
        st.pending.len() == 0,
    ensures
        spec_resolve_commits(base, commits, st) == st,
    decreases commits.len(),
{
    if commits.len() > 0 {
        lemma_resolve_entries_nothing_pending(base, commits[0].time_unix, commits[0].entries, st);
        lemma_resolve_commits_nothing_pending(base, commits.skip(1), st);
    }
}

/// Walks the given commits, newest first, confirming each pending
/// candidate path at the first commit whose snapshot tree holds it and
/// recording that commit's time as the file's "updated" value. Candidates
/// never seen in any commit are left in `pending` for the caller to report.
pub fn resolve_history(
    base: &str,
    commits: &Vec<CommitRecord>,
    pending: &mut Vec<String>,
) -> (r: Vec<ResolvedFile>)
    ensures
        (ResolveState { resolved: r.deep_view(), pending: final(pending).deep_view() }
            == spec_resolve_commits(
            base@,
            commits.deep_view(),
            ResolveState {
                resolved: Seq::<ResolvedFileView>::empty(),
                pending: old(pending).deep_view(),
            },
        )),
{
    let ghost st0 = ResolveState {
        resolved: Seq::<ResolvedFileView>::empty(),
        pending: old(pending).deep_view(),
    };
    let mut resolved: Vec<ResolvedFile> = Vec::new();
    let mut i: usize = 0;
    proof {
        assert(resolved.deep_view() =~= Seq::<ResolvedFileView>::empty());
        assert(commits.deep_view().skip(0) =~= commits.deep_view());
    }
    while i < commits.len() && pending.len() > 0
        invariant
            i <= commits@.len(),
            st0 == (ResolveState {
                resolved: Seq::<ResolvedFileView>::empty(),
                pending: old(pending).deep_view(),
            }),
            (spec_resolve_commits(
                base@,
                commits.deep_view().skip(i as int),
                ResolveState { resolved: resolved.deep_view(), pending: pending.deep_view() },
            ) == spec_resolve_commits(base@, commits.deep_view(), st0)),
        decreases commits@.len() - i,
    {
        proof {
            assert(commits.deep_view().skip(i as int)[0] == commits@[i as int]@);
            assert(commits.deep_view().skip(i as int).skip(1) =~= commits.deep_view().skip(
                i as int + 1,
            ));
        }
        resolve_commit(base, &commits[i], pending, &mut resolved);
        i += 1;
    }
    proof {
        let cur = ResolveState { resolved: resolved.deep_view(), pending: pending.deep_view() };
        if i < commits@.len() {
            assert(pending.deep_view().len() == 0);
            lemma_resolve_commits_nothing_pending(base@, commits.deep_view().skip(i as int), cur);
        } else {
            assert(commits.deep_view().skip(i as int) =~= Seq::<CommitRecordView>::empty());
        }
    }
    resolved
}


/// Some entry of `es` has `p` as its normalized path.
pub open spec fn entries_contain(base: Seq<char>, es: Seq<TreeEntryView>, p: Seq<char>) -> bool {
    exists|j: int| 0 <= j < es.len() && entry_path_of(base, es[j]) == p
}

/// Some commit of `commits` holds `p` in its tree.
pub open spec fn commits_contain(
    base: Seq<char>,
    commits: Seq<CommitRecordView>,
    p: Seq<char>,
) -> bool {
    exists|i: int| 0 <= i < commits.len() && commit_contains(base, commits[i], p)
}

proof fn lemma_contains_head(s: Seq<Seq<char>>, y: Seq<char>)
    requires
        s.len() > 0,
    ensures
        s.contains(y) <==> (s[0] == y || s.skip(1).contains(y)),
{
    if s.contains(y) {
        let i = choose|i: int| 0 <= i < s.len() && s[i] == y;
        if i > 0 {
            assert(s.skip(1)[i - 1] == y);
        }
    }
    if s.skip(1).contains(y) {
        let i = choose|i: int| 0 <= i < s.skip(1).len() && s.skip(1)[i] == y;
        assert(s[i + 1] == y);
    }
}

proof fn lemma_skip_no_duplicates(s: Seq<Seq<char>>)
    requires
        s.len() > 0,
        s.no_duplicates(),
    ensures
        s.skip(1).no_duplicates(),
        !s.skip(1).contains(s[0]),
{
    assert forall|i: int, j: int|
        0 <= i < s.skip(1).len() && 0 <= j < s.skip(1).len() && i != j implies s.skip(1)[i] != s.skip(
        1,
    )[j] by {
        assert(s.skip(1)[i] == s[i + 1]);
        assert(s.skip(1)[j] == s[j + 1]);
    }
    if s.skip(1).contains(s[0]) {
        let i = choose|i: int| 0 <= i < s.skip(1).len() && s.skip(1)[i] == s[0];
        assert(s[i + 1] == s[0]);
    }
}

/// What removing the first occurrence does to a duplicate-free sequence:
/// the element is gone, everything else stays, and nothing appears.
proof fn lemma_remove_first_props(s: Seq<Seq<char>>, x: Seq<char>)
    requires
        s.no_duplicates(),
    ensures
        remove_first(s, x).no_duplicates(),
        forall|y: Seq<char>| #[trigger] remove_first(s, x).contains(y) <==> (s.contains(y) && y
            != x),
        s.contains(x) ==> remove_first(s, x).len() == s.len() - 1,
        !s.contains(x) ==> remove_first(s, x) == s,
    decreases s.len(),
{
    if s.len() == 0 {
        assert forall|y: Seq<char>| #[trigger] remove_first(s, x).contains(y) implies false by {}
    } else {
        lemma_contains_head(s, x);
        lemma_skip_no_duplicates(s);
        if s[0] == x {
            assert(remove_first(s, x) == s.skip(1));
            assert(s.contains(x)) by {
                assert(s[0] == x);
            }
            assert forall|y: Seq<char>| #[trigger]
                remove_first(s, x).contains(y) <==> (s.contains(y) && y != x) by {
                lemma_contains_head(s, y);
                if s.skip(1).contains(y) {
                    assert(y != x);
                }
                if s.contains(y) && y != x {
                    assert(s.skip(1).contains(y));
                }
            }
        } else {
            lemma_remove_first_props(s.skip(1), x);
            let rest = remove_first(s.skip(1), x);
            let rf = seq![s[0]] + rest;
            assert(remove_first(s, x) == rf);
            assert(rf.len() > 0);
            assert(rf[0] == s[0]);
            assert(rf.skip(1) =~= rest);
            assert forall|y: Seq<char>| #[trigger] rf.contains(y) <==> (s.contains(y) && y != x) by {
                lemma_contains_head(rf, y);
                lemma_contains_head(s, y);
            }
            assert(rf.no_duplicates()) by {
                assert forall|i: int, j: int|
                    0 <= i < rf.len() && 0 <= j < rf.len() && i != j implies rf[i] != rf[j] by {
                    if i == 0 || j == 0 {
                        let k = if i == 0 { j } else { i };
                        assert(rf[k] == rest[k - 1]);
                        assert(rest.contains(rest[k - 1]));
                        assert(s.skip(1).contains(rest[k - 1]));
                    } else {
                        assert(rf[i] == rest[i - 1]);
                        assert(rf[j] == rest[j - 1]);
                        assert(rest.no_duplicates());
                    }
                }
            }
            if s.contains(x) {
                assert(s.skip(1).contains(x));
            }
            if !s.contains(x) {
                assert(!s.skip(1).contains(x));
                assert(rf =~= s);
            }
        }
    }
}

proof fn lemma_entries_contain_head(base: Seq<char>, es: Seq<TreeEntryView>, y: Seq<char>)
    requires
        es.len() > 0,
    ensures
        entries_contain(base, es, y) <==> (entry_path_of(base, es[0]) == y || entries_contain(
            base,
            es.skip(1),
            y,
        )),
{
    if entries_contain(base, es, y) {
        let j = choose|j: int| 0 <= j < es.len() && entry_path_of(base, es[j]) == y;
        if j > 0 {
            assert(es.skip(1)[j - 1] == es[j]);
            assert(entry_path_of(base, es.skip(1)[j - 1]) == y);
        }
    }
    if entries_contain(base, es.skip(1), y) {
        let j = choose|j: int| 0 <= j < es.skip(1).len() && entry_path_of(base, es.skip(1)[j]) == y;
        assert(es[j + 1] == es.skip(1)[j]);
        assert(entry_path_of(base, es[j + 1]) == y);
    }
}

proof fn lemma_commits_contain_head(base: Seq<char>, cs: Seq<CommitRecordView>, y: Seq<char>)
    requires
        cs.len() > 0,
    ensures
        commits_contain(base, cs, y) <==> (commit_contains(base, cs[0], y) || commits_contain(
            base,
            cs.skip(1),
            y,
        )),
{
    if commits_contain(base, cs, y) {
        let i = choose|i: int| 0 <= i < cs.len() && commit_contains(base, cs[i], y);
        if i > 0 {
            assert(cs.skip(1)[i - 1] == cs[i]);
            assert(commit_contains(base, cs.skip(1)[i - 1], y));
        }
    }
    if commits_contain(base, cs.skip(1), y) {
        let i = choose|i: int| 0 <= i < cs.skip(1).len() && commit_contains(base, cs.skip(1)[i], y);
        assert(cs[i + 1] == cs.skip(1)[i]);
        assert(commit_contains(base, cs[i + 1], y));
    }
}

/// What one tree walk does to a duplicate-free resolver state: pending
/// keeps exactly the paths no entry carries, the resolved list grows by
/// the paths this tree confirmed, all stamped with this commit's time, and
/// counts balance.
proof fn lemma_resolve_entries_props(
    base: Seq<char>,
    time: int,
    es: Seq<TreeEntryView>,
    st: ResolveState,
)
    requires
        st.pending.no_duplicates(),
    ensures
        ({
            let st1 = spec_resolve_entries(base, time, es, st);
            &&& st1.pending.no_duplicates()
            &&& forall|y: Seq<char>| #[trigger] st1.pending.contains(y) <==> (st.pending.contains(y)
                && !entries_contain(base, es, y))
            &&& st1.resolved.len() >= st.resolved.len()
            &&& forall|m: int| 0 <= m < st.resolved.len() ==> st1.resolved[m] == st.resolved[m]
            &&& forall|m: int|
                st.resolved.len() <= m < st1.resolved.len() ==> (#[trigger] st1.resolved[m].time_unix
                    == time && st.pending.contains(st1.resolved[m].path) && entries_contain(
                    base,
                    es,
                    st1.resolved[m].path,
                ))
            &&& forall|y: Seq<char>|
                st.pending.contains(y) && #[trigger] entries_contain(base, es, y) ==> exists|m: int|
                    st.resolved.len() <= m < st1.resolved.len() && st1.resolved[m].path == y
            &&& st1.resolved.len() - st.resolved.len() == st.pending.len() - st1.pending.len()
        }),
    decreases es.len(),
{
    let st1 = spec_resolve_entries(base, time, es, st);
    if es.len() == 0 {
        assert forall|y: Seq<char>| #[trigger]
            st1.pending.contains(y) <==> (st.pending.contains(y) && !entries_contain(
            base,
            es,
            y,
        )) by {}
    } else {
        let p = entry_path_of(base, es[0]);
        assert(entries_contain(base, es, p)) by {
            assert(entry_path_of(base, es[0]) == p);
        }
        let sta = if st.pending.contains(p) {
            ResolveState {
                resolved: st.resolved + seq![
                    ResolvedFileView { path: p, name: es[0].name, time_unix: time },
                ],
                pending: remove_first(st.pending, p),
            }
        } else {
            st
        };
        lemma_remove_first_props(st.pending, p);
        assert(sta.pending.no_duplicates());
        lemma_resolve_entries_props(base, time, es.skip(1), sta);
        assert(st1 == spec_resolve_entries(base, time, es.skip(1), sta));
        assert(st1.pending.no_duplicates());
        assert(sta.resolved.len() >= st.resolved.len());
        assert(st1.resolved.len() >= st.resolved.len());
        assert forall|m: int| 0 <= m < st.resolved.len() implies st1.resolved[m]
            == st.resolved[m] by {
            assert(sta.resolved[m] == st.resolved[m]);
            assert(st1.resolved[m] == sta.resolved[m]);
        }
        if st.pending.contains(p) {
            assert(sta.pending.len() == st.pending.len() - 1);
            assert(sta.resolved.len() == st.resolved.len() + 1);
        }
        assert(st1.resolved.len() - st.resolved.len() == st.pending.len() - st1.pending.len());
        assert forall|y: Seq<char>| #[trigger]
            st1.pending.contains(y) <==> (st.pending.contains(y) && !entries_contain(
            base,
            es,
            y,
        )) by {
            lemma_entries_contain_head(base, es, y);
        }
        assert forall|m: int|
            st.resolved.len() <= m < st1.resolved.len() implies (#[trigger] st1.resolved[m].time_unix
                == time && st.pending.contains(st1.resolved[m].path) && entries_contain(
                base,
                es,
                st1.resolved[m].path,
            )) by {
            if m < sta.resolved.len() {
                assert(st1.resolved[m] == sta.resolved[m]);
                assert(sta.resolved[m].path == p);
            } else {
                lemma_entries_contain_head(base, es, st1.resolved[m].path);
            }
        }
        assert forall|y: Seq<char>|
            st.pending.contains(y) && #[trigger] entries_contain(base, es, y) implies exists|m: int|
                st.resolved.len() <= m < st1.resolved.len() && st1.resolved[m].path == y by {
            lemma_entries_contain_head(base, es, y);
            if y == p && st.pending.contains(p) {
                let m = st.resolved.len() as int;
                assert(sta.resolved[m].path == p);
                assert(st1.resolved[m] == sta.resolved[m]);
                assert(st1.resolved[m].path == y);
            } else {
                assert(sta.pending.contains(y));
                assert(entries_contain(base, es.skip(1), y));
            }
        }
    }
}

/// What walking a run of commits does to a duplicate-free resolver state:
/// pending keeps exactly the paths no commit holds, earlier resolutions
/// stay untouched, and counts balance.
proof fn lemma_resolve_commits_props(
    base: Seq<char>,
    commits: Seq<CommitRecordView>,
    st: ResolveState,
)
    requires
        st.pending.no_duplicates(),
    ensures
        ({
            let st1 = spec_resolve_commits(base, commits, st);
            &&& st1.pending.no_duplicates()
            &&& forall|y: Seq<char>| #[trigger] st1.pending.contains(y) <==> (st.pending.contains(y)
                && !commits_contain(base, commits, y))
            &&& st1.resolved.len() >= st.resolved.len()
            &&& forall|m: int| 0 <= m < st.resolved.len() ==> st1.resolved[m] == st.resolved[m]
            &&& st1.resolved.len() - st.resolved.len() == st.pending.len() - st1.pending.len()
        }),
    decreases commits.len(),
{
    let st1 = spec_resolve_commits(base, commits, st);
    if commits.len() == 0 {
        assert forall|y: Seq<char>| #[trigger]
            st1.pending.contains(y) <==> (st.pending.contains(y) && !commits_contain(
            base,
            commits,
            y,
        )) by {}
    } else {
        let sta = spec_resolve_entries(base, commits[0].time_unix, commits[0].entries, st);
        lemma_resolve_entries_props(base, commits[0].time_unix, commits[0].entries, st);
        lemma_resolve_commits_props(base, commits.skip(1), sta);
        assert forall|y: Seq<char>| #[trigger]
            st1.pending.contains(y) <==> (st.pending.contains(y) && !commits_contain(
            base,
            commits,
            y,
        )) by {
            lemma_commits_contain_head(base, commits, y);
        }
    }
}

/// Law: a candidate present in some commit is resolved at the newest such
/// commit in traversal order, and carries that commit's time -- not the
/// time of the commit that introduced the file.
pub proof fn lemma_newest_commit_wins(
    base: Seq<char>,
    commits: Seq<CommitRecordView>,
    st: ResolveState,
    p: Seq<char>,
    i: int,
)
    requires
        st.pending.no_duplicates(),
        st.pending.contains(p),
        0 <= i < commits.len(),
        commit_contains(base, commits[i], p),
        forall|k: int| 0 <= k < i ==> !commit_contains(base, commits[k], p),
    ensures
        ({
            let st1 = spec_resolve_commits(base, commits, st);
            &&& !st1.pending.contains(p)
            &&& exists|m: int|
                0 <= m < st1.resolved.len() && st1.resolved[m].path == p
                    && #[trigger] st1.resolved[m].time_unix == commits[i].time_unix
        }),
    decreases i,
{
    let st1 = spec_resolve_commits(base, commits, st);
    let sta = spec_resolve_entries(base, commits[0].time_unix, commits[0].entries, st);
    lemma_resolve_entries_props(base, commits[0].time_unix, commits[0].entries, st);
    lemma_resolve_commits_props(base, commits, st);
    assert(!st1.pending.contains(p)) by {
        assert(commits_contain(base, commits, p)) by {
            assert(commit_contains(base, commits[i], p));
        }
    }
    lemma_resolve_commits_props(base, commits.skip(1), sta);
    if i == 0 {
        let m = choose|m: int|
            st.resolved.len() <= m < sta.resolved.len() && sta.resolved[m].path == p;
        assert(sta.resolved[m].time_unix == commits[0].time_unix);
        assert(st1.resolved[m] == sta.resolved[m]);
    } else {
        assert(!commit_contains(base, commits[0], p));
        assert(sta.pending.contains(p));
        assert(commits.skip(1)[i - 1] == commits[i]);
        assert forall|k: int| 0 <= k < i - 1 implies !commit_contains(
            base,
            commits.skip(1)[k],
            p,
        ) by {
            assert(commits.skip(1)[k] == commits[k + 1]);
        }
        lemma_newest_commit_wins(base, commits.skip(1), sta, p, i - 1);
        assert(st1 == spec_resolve_commits(base, commits.skip(1), sta));
    }
}

/// Law: where every candidate path is held by some commit, resolution
/// leaves nothing pending and yields exactly one resolution per candidate.
pub proof fn lemma_resolution_complete(
    base: Seq<char>,
    commits: Seq<CommitRecordView>,
    pending0: Seq<Seq<char>>,
)
    requires
        pending0.no_duplicates(),
        forall|y: Seq<char>| pending0.contains(y) ==> #[trigger] commits_contain(base, commits, y),
    ensures
        ({
            let st1 = spec_resolve_commits(
                base,
                commits,
                ResolveState { resolved: Seq::empty(), pending: pending0 },
            );
            &&& st1.pending.len() == 0
            &&& st1.resolved.len() == pending0.len()
        }),
{
    let st0 = ResolveState { resolved: Seq::empty(), pending: pending0 };
    let st1 = spec_resolve_commits(base, commits, st0);
    lemma_resolve_commits_props(base, commits, st0);
    if st1.pending.len() > 0 {
        assert(st1.pending.contains(st1.pending[0]));
        assert(pending0.contains(st1.pending[0]));
        assert(commits_contain(base, commits, st1.pending[0]));
        assert(false);
    }
}


/// Law: a candidate held by exactly one commit resolves with that commit's
/// time. Together with `lemma_resolution_complete`, an index built from
/// candidates each committed exactly once has exactly one entry per
/// candidate, each stamped with its committing commit's time.
pub proof fn lemma_committed_once_keeps_commit_time(
    base: Seq<char>,
    commits: Seq<CommitRecordView>,
    pending0: Seq<Seq<char>>,
    p: Seq<char>,
    i: int,
)
    requires
        pending0.no_duplicates(),
        pending0.contains(p),
        0 <= i < commits.len(),
        commit_contains(base, commits[i], p),
        forall|k: int| 0 <= k < commits.len() && k != i ==> !commit_contains(base, commits[k], p),
    ensures
        ({
            let st1 = spec_resolve_commits(
                base,
                commits,
                ResolveState { resolved: Seq::empty(), pending: pending0 },
            );
            exists|m: int|
                0 <= m < st1.resolved.len() && st1.resolved[m].path == p
                    && #[trigger] st1.resolved[m].time_unix == commits[i].time_unix
        }),
{
    let st0 = ResolveState { resolved: Seq::empty(), pending: pending0 };
    lemma_newest_commit_wins(base, commits, st0, p, i);
}

} // verus!
