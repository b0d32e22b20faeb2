use vstd::prelude::*;
use crate::catalog::{integrate_catalog, spec_catalog_entries, CatalogEntry, CatalogEntryView};
use crate::record::{build_record, spec_record, SchemaDoc, SchemaDocView, SchemaEntry, SchemaEntryView};
use crate::resolve::{ResolvedFile, ResolvedFileView};
use crate::strutil::{spec_trim_end_char, trim_end_char};

verus! {

/// The failures that abort a run with no output.
#[derive(Debug, Clone, Copy, PartialEq, Eq, Structural)]
pub enum IndexError {
    /// Some candidate file on disk was never found in any commit.
    UncommittedFiles,
}

/// The output document: the index entries in discovery order, local
/// entries first, catalog-sourced entries appended after.
pub struct SchemaIndex {
    pub schemas: Vec<SchemaEntry>,
}

pub ghost struct SchemaIndexView {
    pub schemas: Seq<SchemaEntryView>,
}

impl View for SchemaIndex {
    type V = SchemaIndexView;

    open spec fn view(&self) -> SchemaIndexView {
        SchemaIndexView { schemas: self.schemas.deep_view() }
    }
}

/// The local entries of the index, one per resolved candidate file, in
/// resolution order, each built from its document's metadata under the
/// slash-trimmed base URL.
pub open spec fn spec_local_entries(
    base_url: Seq<char>,
    resolved: Seq<ResolvedFileView>,
    docs: Seq<SchemaDocView>,
) -> Seq<SchemaEntryView> {
    Seq::new(
        resolved.len(),
        |i: int| spec_record(base_url, resolved[i].name, resolved[i].time_unix, docs[i]),
    )
}

/// The whole index: local entries in resolution order, then, where a
/// catalog was fetched, its eligible entries in catalog order.
pub open spec fn spec_index(
    base_url: Seq<char>,
    resolved: Seq<ResolvedFileView>,
    docs: Seq<SchemaDocView>,
    catalog: Option<Seq<CatalogEntryView>>,
    now_unix: int,
) -> Seq<SchemaEntryView> {
    spec_local_entries(spec_trim_end_char(base_url, '/'), resolved, docs)
        + (match catalog {
        Some(es) => spec_catalog_entries(es, now_unix),
        None => Seq::empty(),
    })
}

/// Builds the local entries of the index: one per resolved candidate, in
/// resolution order, pairing each with its parsed document.
pub fn build_local_entries(
    base_url: &str,
    resolved: &Vec<ResolvedFile>,
    docs: Vec<SchemaDoc>,
) -> (r: Vec<SchemaEntry>)
    requires
        docs@.len() == resolved@.len(),
    ensures
        r.deep_view() == spec_local_entries(base_url@, resolved.deep_view(), docs.deep_view()),
{
    let ghost rs = resolved.deep_view();
    let ghost ds = docs.deep_view();
    let mut docs = docs;
    let mut r: Vec<SchemaEntry> = Vec::new();
    let mut i: usize = 0;
    while i < resolved.len()
        invariant
            i <= resolved@.len(),
            rs == resolved.deep_view(),
            ds.len() == resolved@.len(),
            docs@.len() == resolved@.len() - i,
            docs.deep_view() == ds.skip(i as int),
            r.deep_view().len() == i,
            forall|k: int|
                0 <= k < i ==> r.deep_view()[k] == spec_record(
                    base_url@,
                    rs[k].name,
                    rs[k].time_unix,
                    ds[k],
                ),
        decreases resolved@.len() - i,
    {
        let ghost i0 = i as int;
        let ghost prev = r@;
        let ghost rdpre = r.deep_view();
        let ghost dpre = docs@;
        let doc: SchemaDoc = docs.remove(0);
        proof {
            assert(doc == dpre[0]);
            assert(dpre[0].deep_view() == ds.skip(i0)[0]);
            assert(doc@ == ds[i0]);
            assert forall|k: int| 0 <= k < docs.deep_view().len() implies docs.deep_view()[k]
                == ds.skip(i0 + 1)[k] by {
                assert(docs@[k] == dpre[k + 1]);
                assert(dpre[k + 1].deep_view() == ds.skip(i0)[k + 1]);
            }
            assert(docs.deep_view() =~= ds.skip(i0 + 1));
        }
        let rf: &ResolvedFile = &resolved[i];
        let rec: SchemaEntry = build_record(base_url, rf.name.as_str(), rf.time_unix, doc);
        proof {
            assert(rf@ == rs[i0]);
            assert(rec@ == spec_record(base_url@, rs[i0].name, rs[i0].time_unix, ds[i0]));
        }
        let ghost grec = rec;
        r.push(rec);
        proof {
            assert(r@ == prev.push(grec));
            assert(rf@ == rs[i0]);
            assert forall|k: int| 0 <= k < i0 + 1 implies r.deep_view()[k] == spec_record(
                base_url@,
                rs[k].name,
                rs[k].time_unix,
                ds[k],
            ) by {
                if k < i0 {
                    assert(rdpre[k] == spec_record(base_url@, rs[k].name, rs[k].time_unix, ds[k]));
                    assert(r@[k] == prev[k]);
                    assert(r.deep_view()[k] == rdpre[k]);
                } else {
                    assert(r@[k] == grec);
                }
            }
            assert(docs.deep_view() =~= ds.skip(i0 + 1));
        }
        i += 1;
    }
    proof {
        assert(r.deep_view() =~= spec_local_entries(base_url@, rs, ds));
    }
    r
}

/// Reports the integrity failure of candidates never found in history:
/// the run may proceed only where nothing is left pending.
pub fn check_all_resolved(pending: &Vec<String>) -> (r: Result<(), IndexError>)
    ensures
        r is Ok <==> pending@.len() == 0,
        r is Err ==> r == Result::<(), IndexError>::Err(IndexError::UncommittedFiles),
{
    if pending.len() == 0 {
        Ok(())
    } else {
        Err(IndexError::UncommittedFiles)
    }
}

/// Assembles the output document: fails with an integrity error (and no
/// index) while any candidate is still pending; otherwise lays out the
/// local entries in resolution order under the slash-trimmed base URL and
/// appends the catalog-sourced entries where a catalog was fetched.
pub fn assemble_index(
    pending: &Vec<String>,
    base_url: &str,
    resolved: &Vec<ResolvedFile>,
    docs: Vec<SchemaDoc>,
    catalog: Option<&Vec<CatalogEntry>>,
    now_unix: i64,
) -> (r: Result<SchemaIndex, IndexError>)
    requires
        docs@.len() == resolved@.len(),
    ensures
        r is Ok <==> pending@.len() == 0,
        (r matches Ok(ix) ==> ix@.schemas == spec_index(
            base_url@,
            resolved.deep_view(),
            docs.deep_view(),
            match catalog {
                Some(c) => Some(c.deep_view()),
                None => None,
            },
            now_unix as int,
        )),
        r matches Err(e) ==> e == IndexError::UncommittedFiles,
{
    if pending.len() > 0 {
        return Err(IndexError::UncommittedFiles);
    }
    let base: String = trim_end_char(base_url, '/');
    let mut schemas: Vec<SchemaEntry> = build_local_entries(base.as_str(), resolved, docs);
    let ghost locals = schemas.deep_view();
    match catalog {
        Some(es) => {
            let mut tail: Vec<SchemaEntry> = integrate_catalog(es, now_unix);
            let ghost tailv = tail.deep_view();
            let ghost prev = schemas@;
            let ghost gtail = tail@;
            schemas.append(&mut tail);
            proof {
                assert(schemas@ == prev + gtail);
                assert forall|k: int| 0 <= k < schemas.deep_view().len() implies
                    schemas.deep_view()[k] == (locals + tailv)[k] by {
                    if k < prev.len() {
                        assert(schemas@[k] == prev[k]);
                    } else {
                        assert(schemas@[k] == gtail[k - prev.len()]);
                    }
                }
                assert(schemas.deep_view() =~= locals + tailv);
            }
        },
        None => {
            proof {
                assert(schemas.deep_view() =~= locals + Seq::<SchemaEntryView>::empty());
            }
        },
    }
    Ok(SchemaIndex { schemas })
}

/// Law: the local entries of the index do not depend on the run-start
/// wall-clock time; two runs over the same repository state and documents
/// lay out identical local entries, whatever the clock said.
pub proof fn lemma_local_entries_reproducible(
    base_url: Seq<char>,
    resolved: Seq<ResolvedFileView>,
    docs: Seq<SchemaDocView>,
    catalog1: Option<Seq<CatalogEntryView>>,
    catalog2: Option<Seq<CatalogEntryView>>,
    now1: int,
    now2: int,
)
    ensures
        (spec_index(base_url, resolved, docs, catalog1, now1).take(resolved.len() as int)
            == spec_index(base_url, resolved, docs, catalog2, now2).take(resolved.len() as int)),
{
    let locals = spec_local_entries(spec_trim_end_char(base_url, '/'), resolved, docs);
    assert(spec_index(base_url, resolved, docs, catalog1, now1).take(resolved.len() as int)
        =~= locals);
    assert(spec_index(base_url, resolved, docs, catalog2, now2).take(resolved.len() as int)
        =~= locals);
}

} // verus!
