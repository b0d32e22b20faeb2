use vstd::prelude::*;
use vstd::string::StringExecFns;
use crate::digest::{spec_url_hash, url_hash};
use crate::timefmt::{format_rfc3339, rfc3339_of};

verus! {

/// The consumer-specific metadata block of an index entry.
pub struct ExtraInfo {
    pub authors: Vec<String>,
    pub patterns: Vec<String>,
}

pub ghost struct ExtraInfoView {
    pub authors: Seq<Seq<char>>,
    pub patterns: Seq<Seq<char>>,
}

impl View for ExtraInfo {
    type V = ExtraInfoView;

    open spec fn view(&self) -> ExtraInfoView {
        ExtraInfoView { authors: self.authors.deep_view(), patterns: self.patterns.deep_view() }
    }
}

impl DeepView for ExtraInfo {
    type V = ExtraInfoView;

    open spec fn deep_view(&self) -> ExtraInfoView {
        self.view()
    }
}

/// A local schema document's parsed metadata: an optional title, an
/// optional description, and the pass-through metadata block.
pub struct SchemaDoc {
    pub title: Option<String>,
    pub description: Option<String>,
    pub extra: ExtraInfo,
}

pub ghost struct SchemaDocView {
    pub title: Option<Seq<char>>,
    pub description: Option<Seq<char>>,
    pub extra: ExtraInfoView,
}

impl View for SchemaDoc {
    type V = SchemaDocView;

    open spec fn view(&self) -> SchemaDocView {
        SchemaDocView {
            title: self.title.deep_view(),
            description: self.description.deep_view(),
            extra: self.extra@,
        }
    }
}

impl DeepView for SchemaDoc {
    type V = SchemaDocView;

    open spec fn deep_view(&self) -> SchemaDocView {
        self.view()
    }
}

/// One record of the output index.
pub struct SchemaEntry {
    pub title: Option<String>,
    pub description: Option<String>,
    pub updated: Option<String>,
    pub url: String,
    pub url_hash: String,
    pub extra: ExtraInfo,
}

pub ghost struct SchemaEntryView {
    pub title: Option<Seq<char>>,
    pub description: Option<Seq<char>>,
    pub updated: Option<Seq<char>>,
    pub url: Seq<char>,
    pub url_hash: Seq<char>,
    pub extra: ExtraInfoView,
}

impl View for SchemaEntry {
    type V = SchemaEntryView;

    open spec fn view(&self) -> SchemaEntryView {
        SchemaEntryView {
            title: self.title.deep_view(),
            description: self.description.deep_view(),
            updated: self.updated.deep_view(),
            url: self.url@,
            url_hash: self.url_hash@,
            extra: self.extra@,
        }
    }
}

impl DeepView for SchemaEntry {
    type V = SchemaEntryView;

    open spec fn deep_view(&self) -> SchemaEntryView {
        self.view()
    }
}

/// An entry's hash field is the digest of its URL.
pub open spec fn entry_hash_ok(e: SchemaEntryView) -> bool {
    e.url_hash == spec_url_hash(e.url)
}

/// The URL constructed for a local schema document: the (already
/// slash-trimmed) base URL, a separator, and the file's base name.
pub open spec fn spec_local_url(base_url: Seq<char>, name: Seq<char>) -> Seq<char> {
    base_url + "/"@ + name
}

/// The index entry built for a local schema document.
pub open spec fn spec_record(base_url: Seq<char>, name: Seq<char>, time_unix: int, doc: SchemaDocView) -> SchemaEntryView {
    SchemaEntryView {
        title: doc.title,
        description: doc.description,
        updated: rfc3339_of(time_unix),
        url: spec_local_url(base_url, name),
        url_hash: spec_url_hash(spec_local_url(base_url, name)),
        extra: doc.extra,
    }
}

/// Builds the index entry for one resolved local schema document: the URL
/// joins the base URL with the file's base name, the hash is the digest of
/// that URL, `updated` renders the resolved timestamp, and the document's
/// metadata passes through unchanged.
pub fn build_record(base_url: &str, name: &str, time_unix: i64, doc: SchemaDoc) -> (r: SchemaEntry)
    ensures
        r@ == spec_record(base_url@, name@, time_unix as int, doc@),
        entry_hash_ok(r@),
{
    let mut url = String::new();
    url.append(base_url);
    url.append("/");
    url.append(name);
    proof {
        assert(url@ =~= spec_local_url(base_url@, name@));
    }
    let hash: String = url_hash(url.as_str());
    SchemaEntry {
        title: doc.title,
        description: doc.description,
        updated: format_rfc3339(time_unix),
        url,
        url_hash: hash,
        extra: doc.extra,
    }
}

/// Law: the URL hash is a pure function of the URL. Two entries whose
/// hash fields are the digests of their URLs and whose URLs are equal
/// carry equal hashes.
pub proof fn lemma_url_hash_pure(e1: SchemaEntryView, e2: SchemaEntryView)
    requires
        entry_hash_ok(e1),
        entry_hash_ok(e2),
        e1.url == e2.url,
    ensures
        e1.url_hash == e2.url_hash,
{
}

} // verus!
