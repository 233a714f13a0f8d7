use vstd::prelude::*;
use crate::cache::{
    TitleCache, CacheEntryView, tenant_titles, titles_view, prefix_titles,
    entries_of, get_all_titles,
};
use crate::fuzzy::{best_match, fuzzy_best};
use crate::normalize::{lookup_key, lookup_key_spec};
use crate::store::{Store, Document, DocView, find_doc, deref_alias};

verus! {

/// The failures resolution can surface. `NotFound` is not one of them: it is
/// an ordinary outcome, carried by `ResolutionResult`.
#[derive(Clone, Copy, Debug, PartialEq, Eq, Structural)]
pub enum FaqError {
    /// The shared cache's concurrency guard could not be acquired; surfaced
    /// rather than treated as an empty cache, which would silently disable
    /// fuzzy matching. Produced by the composition layer that owns the guard.
    CacheUnavailable,
    /// An alias's target is missing from the store: a data-integrity error,
    /// distinct from an ordinary miss.
    BrokenAlias,
    /// The backing persistence failed; produced by store-backed deployments,
    /// never by the in-memory store, and propagated unchanged.
    StoreError,
}

/// The outcome of one resolution.
#[derive(Debug)]
pub enum ResolutionResult {
    /// The normalized name matched a stored title exactly; the document is
    /// the content-bearing record after at most one alias hop.
    Exact(Document),
    /// No exact match; the fuzzy resolver accepted the named title, and the
    /// document is that title's content-bearing record. The title names what
    /// matched, not what an alias hop then reached.
    Approximate(Document, String),
    /// No exact match and no fuzzy candidate cleared the threshold.
    NotFound,
}

/// The mathematical value of a `ResolutionResult`.
#[verifier::ext_equal]
pub ghost enum ResolutionView {
    Exact(DocView),
    Approximate(DocView, Seq<char>),
    NotFound,
}

impl View for ResolutionResult {
    type V = ResolutionView;

    open spec fn view(&self) -> ResolutionView {
        match self {
            ResolutionResult::Exact(d) => ResolutionView::Exact(d@),
            ResolutionResult::Approximate(d, m) => ResolutionView::Approximate(d@, m@),
            ResolutionResult::NotFound => ResolutionView::NotFound,
        }
    }
}

/// The resolution semantics, over the store's and cache's contents and the
/// already-normalized lookup key: exact lookup first; on a miss, the fuzzy
/// verdict over the tenant's cached titles, re-fetched from the store (a
/// stale cache hit falls back to `NotFound`); either hit is dereferenced one
/// alias hop, and a missing alias target is the `BrokenAlias` error.
pub open spec fn spec_resolve(
    docs: Seq<DocView>,
    cache: Seq<CacheEntryView>,
    t: int,
    key: Seq<char>,
) -> Result<ResolutionView, FaqError> {
    match find_doc(docs, t, key) {
        Some(e) => match deref_alias(docs, e) {
            Some(f) => Ok(ResolutionView::Exact(f)),
            None => Err(FaqError::BrokenAlias),
        },
        None => match fuzzy_best(key, tenant_titles(cache, t)) {
            None => Ok(ResolutionView::NotFound),
            Some(m) => match find_doc(docs, t, m) {
                None => Ok(ResolutionView::NotFound),
                Some(e) => match deref_alias(docs, e) {
                    Some(f) => Ok(ResolutionView::Approximate(f, m)),
                    None => Err(FaqError::BrokenAlias),
                },
            },
        },
    }
}

/// Alias resolver: returns the document itself when it bears content, else
/// follows its alias exactly one hop; a missing target is the data-integrity
/// error `BrokenAlias`, never a loop and never an ordinary miss.
pub fn resolve_content<'a>(store: &'a Store, doc: &'a Document) -> (r: Result<
    &'a Document,
    FaqError,
>)
    ensures
        match r {
            Ok(d) => deref_alias(store@, doc@) == Some(d@),
            Err(e) => e == FaqError::BrokenAlias && deref_alias(store@, doc@) is None,
        },
{
    match &doc.alias_target {
        None => Ok(doc),
        Some(tgt) => match store.get(doc.tenant_id, tgt.as_str()) {
            Some(d) => Ok(d),
            None => Err(FaqError::BrokenAlias),
        },
    }
}

/// The end-to-end resolution of raw user input for one tenant: normalize,
/// look up exactly, fall back to the fuzzy resolver over the cached titles,
/// dereference one alias hop, and tag the outcome with the path that found
/// it. The tag reflects the title lookup, not the alias hop.
pub fn resolve(store: &Store, cache: &TitleCache, tenant_id: i64, raw: &str, sep: char) -> (r:
    Result<ResolutionResult, FaqError>)
    ensures
        match r {
            Ok(res) => spec_resolve(
                store@,
                cache@,
                tenant_id as int,
                lookup_key_spec(raw@, sep),
            ) == Ok::<ResolutionView, FaqError>(res@),
            Err(e) => spec_resolve(
                store@,
                cache@,
                tenant_id as int,
                lookup_key_spec(raw@, sep),
            ) == Err::<ResolutionView, FaqError>(e),
        },
{
    let key = lookup_key(raw, sep);
    match store.get(tenant_id, key.as_str()) {
        Some(e) => match resolve_content(store, e) {
            Ok(f) => Ok(ResolutionResult::Exact(f.duplicate())),
            Err(err) => Err(err),
        },
        None => {
            let titles = cache.titles_for_tenant(tenant_id);
            match best_match(key.as_str(), &titles) {
                None => Ok(ResolutionResult::NotFound),
                Some(m) => match store.get(tenant_id, m.as_str()) {
                    None => Ok(ResolutionResult::NotFound),
                    Some(e) => match resolve_content(store, e) {
                        Ok(f) => Ok(ResolutionResult::Approximate(f.duplicate(), m)),
                        Err(err) => Err(err),
                    },
                },
            }
        },
    }
}

/// Autocomplete: the tenant's cached titles that the typed prefix matches
/// case-insensitively, in cache order; never consults the store.
pub fn suggest(cache: &TitleCache, tenant_id: i64, prefix: &str) -> (r: Vec<String>)
    ensures
        titles_view(r@) == prefix_titles(cache@, tenant_id as int, prefix@),
{
    cache.lookup_by_prefix(tenant_id, prefix)
}

/// Rebuilds the name index wholesale from the store: one entry per document,
/// replacing the previous contents atomically. Called after every mutating
/// operation.
pub fn refresh_cache(store: &Store, cache: &mut TitleCache)
    ensures
        final(cache)@ == entries_of(store@),
{
    let entries = get_all_titles(store);
    cache.refresh(entries);
}

} // verus!
