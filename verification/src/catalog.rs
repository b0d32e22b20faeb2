use vstd::prelude::*;
use vstd::string::StringExecFns;
use crate::digest::{spec_url_hash, url_hash};
use crate::globre::{spec_translate_glob, translate_glob};
use crate::record::{ExtraInfo, ExtraInfoView, SchemaEntry, SchemaEntryView};
use crate::strutil::{spec_ends_with, spec_trim_end_seq, str_ends_with, trim_end_str};
use crate::timefmt::{format_rfc3339, rfc3339_of};

verus! {

/// One descriptor of the remote catalog: an optional display name, an
/// optional description, its canonical URL, and its file-match globs.
pub struct CatalogEntry {
    pub name: Option<String>,
    pub description: Option<String>,
    pub url: String,
    pub file_match: Vec<String>,
}

pub ghost struct CatalogEntryView {
    pub name: Option<Seq<char>>,
    pub description: Option<Seq<char>>,
    pub url: Seq<char>,
    pub file_match: Seq<Seq<char>>,
}

impl View for CatalogEntry {
    type V = CatalogEntryView;

    open spec fn view(&self) -> CatalogEntryView {
        CatalogEntryView {
            name: self.name.deep_view(),
            description: self.description.deep_view(),
            url: self.url@,
            file_match: self.file_match.deep_view(),
        }
    }
}

impl DeepView for CatalogEntry {
    type V = CatalogEntryView;

    open spec fn deep_view(&self) -> CatalogEntryView {
        self.view()
    }
}

/// A catalog entry is taken into the index only where at least one of its
/// file-match globs ends in the tracked extension.
pub open spec fn spec_eligible(e: CatalogEntryView) -> bool {
    exists|i: int| 0 <= i < e.file_match.len() && spec_ends_with(e.file_match[i], ".toml"@)
}

/// The translated patterns of an entry's file-match globs, in order: globs
/// not ending in the tracked extension are ignored, the rest are stripped
/// of that extension and translated, and globs that fail to compile are
/// skipped.
pub open spec fn spec_entry_patterns(fms: Seq<Seq<char>>) -> Seq<Seq<char>>
    decreases fms.len(),
{
    if fms.len() == 0 {
        Seq::empty()
    } else {
        let head: Seq<Seq<char>> = if spec_ends_with(fms[0], ".toml"@) {
            match spec_translate_glob(spec_trim_end_seq(fms[0], ".toml"@)) {
                Some(p) => seq![p],
                None => seq![],
            }
        } else {
            seq![]
        };
        head + spec_entry_patterns(fms.skip(1))
    }
}

/// The single provenance author recorded on every catalog-sourced entry.
pub open spec fn spec_provenance() -> Seq<char> {
    "automatically included from https://schemastore.org"@
}

/// The index entry built for one eligible catalog descriptor.
pub open spec fn spec_catalog_record(e: CatalogEntryView, now_unix: int) -> SchemaEntryView {
    SchemaEntryView {
        title: e.name,
        description: e.description,
        updated: rfc3339_of(now_unix),
        url: e.url,
        url_hash: spec_url_hash(e.url),
        extra: ExtraInfoView {
            authors: seq![spec_provenance()],
            patterns: spec_entry_patterns(e.file_match),
        },
    }
}

/// The index entries contributed by a catalog, in catalog order: one entry
/// per eligible descriptor, none for the rest.
pub open spec fn spec_catalog_entries(es: Seq<CatalogEntryView>, now_unix: int) -> Seq<
    SchemaEntryView,
>
    decreases es.len(),
{
    if es.len() == 0 {
        Seq::empty()
    } else {
        let head: Seq<SchemaEntryView> = if spec_eligible(es[0]) {
            seq![spec_catalog_record(es[0], now_unix)]
        } else {
            seq![]
        };
        head + spec_catalog_entries(es.skip(1), now_unix)
    }
}

/// Whether at least one of the entry's file-match globs ends in the
/// tracked extension.
pub fn entry_eligible(e: &CatalogEntry) -> (r: bool)
    ensures
        r == spec_eligible(e@),
{
    let mut i: usize = 0;
    while i < e.file_match.len()
        invariant
            i <= e@.file_match.len(),
            forall|j: int| 0 <= j < i ==> !spec_ends_with(e@.file_match[j], ".toml"@),
        decreases e@.file_match.len() - i,
    {
        if str_ends_with(e.file_match[i].as_str(), ".toml") {
            proof {
                assert(spec_ends_with(e@.file_match[i as int], ".toml"@));
            }
            return true;
        }
        i += 1;
    }
    false
}

/// Translates the entry's eligible file-match globs, skipping those that
/// fail to compile.
pub fn entry_patterns(fms: &Vec<String>) -> (r: Vec<String>)
    ensures
        r.deep_view() == spec_entry_patterns(fms.deep_view()),
{
    let ghost all = fms.deep_view();
    let mut r: Vec<String> = Vec::new();
    let mut i: usize = 0;
    proof {
        assert(r.deep_view() =~= Seq::<Seq<char>>::empty());
        assert(all.skip(0) =~= all);
        assert(Seq::<Seq<char>>::empty() + spec_entry_patterns(all) =~= spec_entry_patterns(all));
    }
    while i < fms.len()
        invariant
            i <= fms@.len(),
            all == fms.deep_view(),
            (r.deep_view() + spec_entry_patterns(all.skip(i as int)) == spec_entry_patterns(all)),
        decreases fms@.len() - i,
    {
        let ghost i0 = i as int;
        let ghost rpre = r.deep_view();
        proof {
            assert(all.skip(i0)[0] == all[i0]);
            assert(all.skip(i0).skip(1) =~= all.skip(i0 + 1));
        }
        if str_ends_with(fms[i].as_str(), ".toml") {
            proof {
                reveal_strlit(".toml");
            }
            let stripped: String = trim_end_str(fms[i].as_str(), ".toml");
            match translate_glob(stripped.as_str()) {
                Some(p) => {
                    let ghost pv = p@;
                    let ghost prev = r@;
                    let ghost gp = p;
                    r.push(p);
                    proof {
                        assert(r@ == prev.push(gp));
                        assert forall|k: int| 0 <= k < r.deep_view().len() implies r.deep_view()[k]
                            == (rpre + seq![pv])[k] by {
                            if k < prev.len() {
                                assert(r@[k] == prev[k]);
                            } else {
                                assert(r@[k] == gp);
                            }
                        }
                        assert(r.deep_view() =~= rpre + seq![pv]);
                        assert(spec_entry_patterns(all.skip(i0)) == seq![pv]
                            + spec_entry_patterns(all.skip(i0 + 1)));
                        assert(rpre + (seq![pv] + spec_entry_patterns(all.skip(i0 + 1))) =~= (rpre
                            + seq![pv]) + spec_entry_patterns(all.skip(i0 + 1)));
                    }
                },
                None => {
                    proof {
                        assert(spec_entry_patterns(all.skip(i0)) =~= Seq::<Seq<char>>::empty()
                            + spec_entry_patterns(all.skip(i0 + 1)));
                        assert(spec_entry_patterns(all.skip(i0)) =~= spec_entry_patterns(
                            all.skip(i0 + 1),
                        ));
                    }
                },
            }
        } else {
            proof {
                assert(spec_entry_patterns(all.skip(i0)) =~= Seq::<Seq<char>>::empty()
                    + spec_entry_patterns(all.skip(i0 + 1)));
                assert(spec_entry_patterns(all.skip(i0)) =~= spec_entry_patterns(all.skip(i0 + 1)));
            }
        }
        i += 1;
    }
    proof {
        assert(all.skip(fms@.len() as int) =~= Seq::<Seq<char>>::empty());
        assert(r.deep_view() + Seq::<Seq<char>>::empty() =~= r.deep_view());
    }
    r
}

/// Builds the index entry for one eligible catalog descriptor: name and
/// description pass through, the URL is taken verbatim and hashed, the
/// entry is stamped with the run-start time, and the provenance author and
/// translated patterns fill the metadata block.
pub fn build_catalog_record(e: &CatalogEntry, now_unix: i64) -> (r: SchemaEntry)
    ensures
        r@ == spec_catalog_record(e@, now_unix as int),
{
    let hash: String = url_hash(e.url.as_str());
    let mut authors: Vec<String> = Vec::new();
    authors.push(String::from_str("automatically included from https://schemastore.org"));
    let patterns: Vec<String> = entry_patterns(&e.file_match);
    proof {
        assert(authors.deep_view() =~= seq![spec_provenance()]);
    }
    SchemaEntry {
        title: e.name.clone(),
        description: e.description.clone(),
        updated: format_rfc3339(now_unix),
        url: e.url.clone(),
        url_hash: hash,
        extra: ExtraInfo { authors, patterns },
    }
}

/// Builds the catalog-sourced tail of the index: one entry per eligible
/// catalog descriptor, in catalog order, each stamped with the run-start
/// time.
pub fn integrate_catalog(entries: &Vec<CatalogEntry>, now_unix: i64) -> (r: Vec<SchemaEntry>)
    ensures
        r.deep_view() == spec_catalog_entries(entries.deep_view(), now_unix as int),
{
    let ghost all = entries.deep_view();
    let ghost now = now_unix as int;
    let mut r: Vec<SchemaEntry> = Vec::new();
    let mut i: usize = 0;
    proof {
        assert(r.deep_view() =~= Seq::<SchemaEntryView>::empty());
        assert(all.skip(0) =~= all);
        assert(Seq::<SchemaEntryView>::empty() + spec_catalog_entries(all, now)
            =~= spec_catalog_entries(all, now));
    }
    while i < entries.len()
        invariant
            i <= entries@.len(),
            all == entries.deep_view(),
            now == now_unix as int,
            (r.deep_view() + spec_catalog_entries(all.skip(i as int), now) == spec_catalog_entries(
                all,
                now,
            )),
        decreases entries@.len() - i,
    {
        let ghost i0 = i as int;
        let ghost rpre = r.deep_view();
        proof {
            assert(all.skip(i0)[0] == all[i0]);
            assert(all.skip(i0).skip(1) =~= all.skip(i0 + 1));
        }
        if entry_eligible(&entries[i]) {
            let rec: SchemaEntry = build_catalog_record(&entries[i], now_unix);
            let ghost recv = rec@;
            let ghost prev = r@;
            let ghost grec = rec;
            r.push(rec);
            proof {
                assert(r@ == prev.push(grec));
                assert forall|k: int| 0 <= k < r.deep_view().len() implies r.deep_view()[k] == (rpre
                    + seq![recv])[k] by {
                    if k < prev.len() {
                        assert(r@[k] == prev[k]);
                    } else {
                        assert(r@[k] == grec);
                    }
                }
                assert(r.deep_view() =~= rpre + seq![recv]);
                assert(spec_catalog_entries(all.skip(i0), now) == seq![recv]
                    + spec_catalog_entries(all.skip(i0 + 1), now));
                assert(rpre + (seq![recv] + spec_catalog_entries(all.skip(i0 + 1), now)) =~= (rpre
                    + seq![recv]) + spec_catalog_entries(all.skip(i0 + 1), now));
            }
        } else {
            proof {
                assert(spec_catalog_entries(all.skip(i0), now) =~= Seq::<SchemaEntryView>::empty()
                    + spec_catalog_entries(all.skip(i0 + 1), now));
                assert(spec_catalog_entries(all.skip(i0), now) =~= spec_catalog_entries(
                    all.skip(i0 + 1),
                    now,
                ));
            }
        }
        i += 1;
    }
    proof {
        assert(all.skip(entries@.len() as int) =~= Seq::<CatalogEntryView>::empty());
        assert(r.deep_view() + Seq::<SchemaEntryView>::empty() =~= r.deep_view());
    }
    r
}

/// Law: a catalog entry none of whose file-match globs ends in the tracked
/// extension contributes nothing to the index.
pub proof fn lemma_ineligible_entry_excluded(es: Seq<CatalogEntryView>, i: int, now_unix: int)
    requires
        0 <= i < es.len(),
        !spec_eligible(es[i]),
    ensures
        spec_catalog_entries(es, now_unix) == spec_catalog_entries(es.remove(i), now_unix),
    decreases es.len(),
{
    if i == 0 {
        assert(es.remove(0) =~= es.skip(1));
    } else {
        lemma_ineligible_entry_excluded(es.skip(1), i - 1, now_unix);
        assert(es.remove(i).skip(1) =~= es.skip(1).remove(i - 1));
        assert(es.remove(i)[0] == es[0]);
    }
}

} // verus!
