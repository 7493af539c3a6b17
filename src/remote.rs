//! The vector store's protocol as this tool uses it: where requests go,
//! what their answers mean, and how search results are shaped.

use vstd::prelude::*;
use vstd::string::StringExecFns;
use crate::keyed::str_eq;

verus! {

pub open spec fn tenant() -> Seq<char> {
    "default_tenant"@
}

pub open spec fn database() -> Seq<char> {
    "default_database"@
}

/// The collection that holds the chunks.
pub open spec fn collection_name() -> Seq<char> {
    "kb_index"@
}

/// The name of the collection that holds the chunks.
pub fn collection() -> (r: String)
    ensures
        r@ == collection_name(),
{
    "kb_index".to_owned()
}

/// The address of the collections of the store at `host`.
pub open spec fn collections_url_of(host: Seq<char>) -> Seq<char> {
    host + "/api/v2/tenants/"@ + tenant() + "/databases/"@ + database() + "/collections"@
}

/// What an operation on a collection is addressed to.
pub open spec fn collection_op_url_of(host: Seq<char>, id: Seq<char>, op: Seq<char>) -> Seq<char> {
    collections_url_of(host) + "/"@ + id + "/"@ + op
}

/// The address that lists and creates collections.
pub fn collections_url(host: &str) -> (r: String)
    ensures
        r@ == collections_url_of(host@),
{
    let mut u = host.to_owned();
    u.append("/api/v2/tenants/");
    u.append("default_tenant");
    u.append("/databases/");
    u.append("default_database");
    u.append("/collections");
    u
}

/// The address of operation `op` (`add`, `query`, `delete`) on collection `id`.
pub fn collection_op_url(host: &str, id: &str, op: &str) -> (r: String)
    ensures
        r@ == collection_op_url_of(host@, id@, op@),
{
    let mut u = collections_url(host);
    u.append("/");
    u.append(id);
    u.append("/");
    u.append(op);
    u
}

/// An HTTP status of success.
pub open spec fn success_status(status: u16) -> bool {
    200 <= status <= 299
}

/// Whether `status` reports success.
pub fn is_success(status: u16) -> (r: bool)
    ensures
        r == success_status(status),
{
    200 <= status && status <= 299
}

/// What an attempt to create the collection came to.
#[derive(Clone, Copy, Debug, PartialEq, Eq, Structural)]
pub enum CreateOutcome {
    Created,
    /// The collection was there before: as good as created.
    AlreadyExists,
    Failed,
}

/// The meaning of the status that creating the collection answered:
/// a conflict means that it exists already.
pub fn create_outcome(status: u16) -> (r: CreateOutcome)
    ensures
        status == 409 ==> r == CreateOutcome::AlreadyExists,
        status != 409 && success_status(status) ==> r == CreateOutcome::Created,
        status != 409 && !success_status(status) ==> r == CreateOutcome::Failed,
{
    if status == 409 {
        CreateOutcome::AlreadyExists
    } else if is_success(status) {
        CreateOutcome::Created
    } else {
        CreateOutcome::Failed
    }
}

/// A collection as the store lists it; either field may be missing.
#[derive(Clone, Debug, PartialEq, Eq)]
pub struct CollectionInfo {
    pub name: Option<String>,
    pub id: Option<String>,
}

/// The collection is called `name` and has an id.
pub open spec fn names_collection(c: CollectionInfo, name: Seq<char>) -> bool {
    &&& c.name is Some
    &&& c.name->Some_0@ == name
    &&& c.id is Some
}

/// The id of the first listed collection called `name` that has an id.
pub fn find_collection_id(collections: &Vec<CollectionInfo>, name: &str) -> (r: Option<String>)
    ensures
        match r {
            Some(id) => exists|i: int|
                0 <= i < collections@.len() && names_collection(#[trigger] collections@[i], name@)
                    && id == collections@[i].id->Some_0 && forall|j: int|
                    0 <= j < i ==> !names_collection(collections@[j], name@),
            None => forall|i: int|
                0 <= i < collections@.len() ==> !names_collection(#[trigger] collections@[i], name@),
        },
{
    let mut i: usize = 0;
    while i < collections.len()
        invariant
            i <= collections@.len(),
            forall|j: int| 0 <= j < i ==> !names_collection(#[trigger] collections@[j], name@),
        decreases collections@.len() - i,
    {
        let c = &collections[i];
        match (&c.name, &c.id) {
            (Some(n), Some(id)) => {
                if str_eq(n.as_str(), name) {
                    return Some(id.clone());
                }
            },
            _ => {},
        }
        i = i + 1;
    }
    None
}

/// One search result: its rank (from 1), the file it came from, its text.
#[derive(Clone, Debug, PartialEq, Eq)]
pub struct SearchHit {
    pub index: usize,
    pub source: String,
    pub content: String,
}

/// The text of a result, or a placeholder when the store gave none.
pub open spec fn content_or_placeholder(d: Option<String>) -> Seq<char> {
    match d {
        Some(t) => t@,
        None => "<invalid UTF-8>"@,
    }
}

/// The source of a result, or a placeholder when the store gave none.
pub open spec fn source_or_placeholder(sources: Seq<Option<String>>, i: int) -> Seq<char> {
    if 0 <= i < sources.len() && sources[i] is Some {
        sources[i]->Some_0@
    } else {
        "<unknown>"@
    }
}

/// The results of a search, one per document the store returned, with the
/// source recorded for it (`sources[i]` for document `i`).
pub fn search_hits(documents: &Vec<Option<String>>, sources: &Vec<Option<String>>) -> (r: Vec<SearchHit>)
    ensures
        r@.len() == documents@.len(),
        forall|i: int|
            0 <= i < r@.len() ==> (#[trigger] r@[i]).index == i + 1 && r@[i].content@
                == content_or_placeholder(documents@[i]) && r@[i].source@ == source_or_placeholder(
                sources@,
                i,
            ),
{
    let mut out: Vec<SearchHit> = Vec::new();
    let mut i: usize = 0;
    while i < documents.len()
        invariant
            i <= documents@.len(),
            out@.len() == i,
            forall|k: int|
                0 <= k < i ==> (#[trigger] out@[k]).index == k + 1 && out@[k].content@
                    == content_or_placeholder(documents@[k]) && out@[k].source@
                    == source_or_placeholder(sources@, k),
        decreases documents@.len() - i,
    {
        let content = match &documents[i] {
            Some(t) => t.clone(),
            None => "<invalid UTF-8>".to_owned(),
        };
        let source = if i < sources.len() {
            match &sources[i] {
                Some(s) => s.clone(),
                None => "<unknown>".to_owned(),
            }
        } else {
            "<unknown>".to_owned()
        };
        out.push(SearchHit { index: i + 1, source, content });
        i = i + 1;
    }
    out
}

/// The extension of the file that path `p` names, as `Path::extension` finds it.
pub uninterp spec fn extension_of(p: Seq<char>) -> Option<Seq<char>>;

/// Relies on `std::path::Path::extension`: the extension of the path's
/// file name, as text.
#[verifier::external_body]
pub(crate) fn path_extension(p: &str) -> (r: Option<String>)
    ensures
        match r {
            Some(e) => extension_of(p@) == Some(e@),
            None => extension_of(p@) is None,
        },
{
    match std::path::Path::new(p).extension() {
        Some(e) => e.to_str().map(String::from),
        None => None,
    }
}

/// The language tag of a code block for a file: its extension, or `text`.
pub open spec fn language_of(source: Seq<char>) -> Seq<char> {
    match extension_of(source) {
        Some(e) => e,
        None => "text"@,
    }
}

/// A search result as context for the chat model.
pub open spec fn context_chunk_of(source: Seq<char>, content: Seq<char>) -> Seq<char> {
    "**File:** `"@ + source + "`\n\n```"@ + language_of(source) + "\n"@ + content + "\n```"@
}

/// A search result written as context for the chat model: the source file,
/// then the text in a code block tagged with the file's language.
pub fn context_chunk(source: &str, content: &str) -> (r: String)
    ensures
        r@ == context_chunk_of(source@, content@),
{
    let lang = match path_extension(source) {
        Some(e) => e,
        None => "text".to_owned(),
    };
    let mut s = "**File:** `".to_owned();
    s.append(source);
    s.append("`\n\n```");
    s.append(lang.as_str());
    s.append("\n");
    s.append(content);
    s.append("\n```");
    s
}

/// The context chunks for a set of search results, in rank order.
pub fn context_chunks(hits: &Vec<SearchHit>) -> (r: Vec<String>)
    ensures
        r@.len() == hits@.len(),
        forall|i: int|
            0 <= i < r@.len() ==> (#[trigger] r@[i])@ == context_chunk_of(
                hits@[i].source@,
                hits@[i].content@,
            ),
{
    let mut out: Vec<String> = Vec::new();
    let mut i: usize = 0;
    while i < hits.len()
        invariant
            i <= hits@.len(),
            out@.len() == i,
            forall|k: int|
                0 <= k < i ==> (#[trigger] out@[k])@ == context_chunk_of(
                    hits@[k].source@,
                    hits@[k].content@,
                ),
        decreases hits@.len() - i,
    {
        out.push(context_chunk(hits[i].source.as_str(), hits[i].content.as_str()));
        i = i + 1;
    }
    out
}

/// A request for the embedding of texts by a model.
#[derive(Clone, Debug, PartialEq, Eq)]
pub struct EmbeddingRequest {
    pub input: Vec<String>,
    pub model: String,
}

impl EmbeddingRequest {
    /// The request for the embedding of one text.
    pub fn for_text(text: &str, model: &str) -> (r: Self)
        ensures
            r.input@.len() == 1,
            r.input@[0]@ == text@,
            r.model@ == model@,
    {
        EmbeddingRequest { input: vec![text.to_owned()], model: model.to_owned() }
    }
}

} // verus!
