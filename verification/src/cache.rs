use vstd::prelude::*;
use crate::normalize::{to_lower_char, lower_char};
use crate::store::{DocView, Store, key_unique};

verus! {

/// One cache row: a `(tenant, title)` pair projected from a stored document.
pub struct FaqCacheEntry {
    pub server_id: i64,
    pub title: String,
}

/// The mathematical value of a `FaqCacheEntry`.
#[verifier::ext_equal]
pub ghost struct CacheEntryView {
    pub server_id: int,
    pub title: Seq<char>,
}

impl View for FaqCacheEntry {
    type V = CacheEntryView;

    open spec fn view(&self) -> CacheEntryView {
        CacheEntryView { server_id: self.server_id as int, title: self.title@ }
    }
}

pub open spec fn entries_view(v: Seq<FaqCacheEntry>) -> Seq<CacheEntryView> {
    v.map_values(|e: FaqCacheEntry| e@)
}

/// The cache rows that a full snapshot of the store yields: one per document,
/// in store order.
pub open spec fn entries_of(docs: Seq<DocView>) -> Seq<CacheEntryView> {
    docs.map_values(|d: DocView| CacheEntryView { server_id: d.tenant_id, title: d.title })
}

/// The titles the cache holds for tenant `t`, in cache order.
pub open spec fn tenant_titles(c: Seq<CacheEntryView>, t: int) -> Seq<Seq<char>>
    decreases c.len(),
{
    if c.len() == 0 {
        Seq::<Seq<char>>::empty()
    } else if c.last().server_id == t {
        tenant_titles(c.drop_last(), t).push(c.last().title)
    } else {
        tenant_titles(c.drop_last(), t)
    }
}

/// The titles of tenant `t`'s documents, in store order.
pub open spec fn doc_titles(docs: Seq<DocView>, t: int) -> Seq<Seq<char>>
    decreases docs.len(),
{
    if docs.len() == 0 {
        Seq::<Seq<char>>::empty()
    } else if docs.last().tenant_id == t {
        doc_titles(docs.drop_last(), t).push(docs.last().title)
    } else {
        doc_titles(docs.drop_last(), t)
    }
}

pub open spec fn lower_seq(s: Seq<char>) -> Seq<char> {
    s.map_values(|c: char| to_lower_char(c))
}

/// Case-insensitive prefix: `p` matches the front of `s` once both sides are
/// lowercased.
pub open spec fn is_prefix_ci(p: Seq<char>, s: Seq<char>) -> bool {
    p.len() <= s.len() && lower_seq(s).take(p.len() as int) == lower_seq(p)
}

/// The cached titles of tenant `t` that `p` is a case-insensitive prefix of,
/// in cache order.
pub open spec fn prefix_titles(c: Seq<CacheEntryView>, t: int, p: Seq<char>) -> Seq<Seq<char>>
    decreases c.len(),
{
    if c.len() == 0 {
        Seq::<Seq<char>>::empty()
    } else if c.last().server_id == t && is_prefix_ci(p, c.last().title) {
        prefix_titles(c.drop_last(), t, p).push(c.last().title)
    } else {
        prefix_titles(c.drop_last(), t, p)
    }
}

pub open spec fn titles_view(v: Seq<String>) -> Seq<Seq<char>> {
    v.map_values(|s: String| s@)
}

pub fn is_prefix_ci_exec(p: &str, s: &str) -> (r: bool)
    ensures
        r == is_prefix_ci(p@, s@),
{
    let np = p.unicode_len();
    let ns = s.unicode_len();
    if np > ns {
        return false;
    }
    let mut j: usize = 0;
    while j < np
        invariant
            0 <= j <= np,
            np == p@.len(),
            ns == s@.len(),
            np <= ns,
            forall|k: int| 0 <= k < j ==> to_lower_char(s@[k]) == to_lower_char(p@[k]),
        decreases np - j,
    {
        let cs = lower_char(s.get_char(j));
        let cp = lower_char(p.get_char(j));
        if cs != cp {
            assert(lower_seq(s@).take(np as int)[j as int] != lower_seq(p@)[j as int]);
            return false;
        }
        j = j + 1;
    }
    assert(lower_seq(s@).take(np as int) =~= lower_seq(p@));
    true
}

/// The in-memory name index: a read-optimized projection of all
/// `(tenant, title)` pairs, replaced wholesale on refresh, never patched.
pub struct TitleCache {
    entries: Vec<FaqCacheEntry>,
}

impl View for TitleCache {
    type V = Seq<CacheEntryView>;

    closed spec fn view(&self) -> Seq<CacheEntryView> {
        entries_view(self.entries@)
    }
}

impl TitleCache {
    pub fn new() -> (r: TitleCache)
        ensures
            r@ == Seq::<CacheEntryView>::empty(),
    {
        let r = TitleCache { entries: Vec::new() };
        assert(r@ =~= Seq::<CacheEntryView>::empty());
        r
    }

    /// Atomically replaces the whole cache with a fresh snapshot.
    pub fn refresh(&mut self, entries: Vec<FaqCacheEntry>)
        ensures
            final(self)@ == entries_view(entries@),
    {
        self.entries = entries;
    }

    /// All cached titles of one tenant, in cache order: the candidate list
    /// for fuzzy matching. Never consults the store.
    pub fn titles_for_tenant(&self, tenant_id: i64) -> (r: Vec<String>)
        ensures
            titles_view(r@) == tenant_titles(self@, tenant_id as int),
    {
        let mut out: Vec<String> = Vec::new();
        let n = self.entries.len();
        let mut i: usize = 0;
        assert(self@.take(0) =~= Seq::<CacheEntryView>::empty());
        while i < n
            invariant
                0 <= i <= n,
                n == self.entries.len(),
                titles_view(out@) == tenant_titles(self@.take(i as int), tenant_id as int),
            decreases n - i,
        {
            let e = &self.entries[i];
            assert(self@[i as int] == e@);
            assert(self@.take(i + 1).drop_last() =~= self@.take(i as int));
            assert(self@.take(i + 1).last() == self@[i as int]);
            if e.server_id == tenant_id {
                let t = e.title.clone();
                out.push(t);
                assert(titles_view(out@) =~= tenant_titles(
                    self@.take(i as int),
                    tenant_id as int,
                ).push(e@.title));
            }
            assert(titles_view(out@) == tenant_titles(self@.take(i + 1), tenant_id as int));
            i = i + 1;
        }
        assert(self@.take(n as int) =~= self@);
        out
    }

    /// Case-insensitive prefix search over one tenant's cached titles, in
    /// cache order: the interactive-suggestion lookup. Never consults the
    /// store.
    pub fn lookup_by_prefix(&self, tenant_id: i64, prefix: &str) -> (r: Vec<String>)
        ensures
            titles_view(r@) == prefix_titles(self@, tenant_id as int, prefix@),
    {
        let mut out: Vec<String> = Vec::new();
        let n = self.entries.len();
        let mut i: usize = 0;
        assert(self@.take(0) =~= Seq::<CacheEntryView>::empty());
        while i < n
            invariant
                0 <= i <= n,
                n == self.entries.len(),
                titles_view(out@) == prefix_titles(
                    self@.take(i as int),
                    tenant_id as int,
                    prefix@,
                ),
            decreases n - i,
        {
            let e = &self.entries[i];
            assert(self@[i as int] == e@);
            assert(self@.take(i + 1).drop_last() =~= self@.take(i as int));
            assert(self@.take(i + 1).last() == self@[i as int]);
            if e.server_id == tenant_id && is_prefix_ci_exec(prefix, e.title.as_str()) {
                let t = e.title.clone();
                out.push(t);
                assert(titles_view(out@) =~= prefix_titles(
                    self@.take(i as int),
                    tenant_id as int,
                    prefix@,
                ).push(e@.title));
            }
            assert(titles_view(out@) == prefix_titles(
                self@.take(i + 1),
                tenant_id as int,
                prefix@,
            ));
            i = i + 1;
        }
        assert(self@.take(n as int) =~= self@);
        out
    }

    /// How many entries the cache holds.
    pub fn len(&self) -> (n: usize)
        ensures
            n == self@.len(),
    {
        self.entries.len()
    }
}

/// A full snapshot of the store's `(tenant, title)` pairs, one per document,
/// in store order: the input of a cache refresh.
pub fn get_all_titles(store: &Store) -> (r: Vec<FaqCacheEntry>)
    ensures
        entries_view(r@) == entries_of(store@),
{
    let rows = store.rows();
    let mut out: Vec<FaqCacheEntry> = Vec::new();
    let n = rows.len();
    let mut i: usize = 0;
    while i < n
        invariant
            0 <= i <= n,
            n == rows@.len(),
            crate::store::docs_view(rows@) == store@,
            entries_view(out@) =~= entries_of(store@.take(i as int)),
        decreases n - i,
    {
        let d = &rows[i];
        assert(store@[i as int] == d@);
        let e = FaqCacheEntry { server_id: d.tenant_id, title: d.title.clone() };
        out.push(e);
        assert(entries_view(out@) =~= entries_of(store@.take(i as int)).push(e@));
        assert(entries_view(out@) =~= entries_of(store@.take(i + 1)));
        i = i + 1;
    }
    assert(store@.take(n as int) =~= store@);
    out
}

/// Tenant `t` stores some document titled `title`.
pub open spec fn has_title(docs: Seq<DocView>, t: int, title: Seq<char>) -> bool {
    exists|j: int|
        0 <= j < docs.len() && (#[trigger] docs[j]).tenant_id == t && docs[j].title == title
}

/// The titles a snapshot of `docs` yields for tenant `t` come from `t`'s
/// documents alone, and under key uniqueness they hold no duplicates.
proof fn lemma_doc_titles_props(docs: Seq<DocView>, t: int)
    ensures
        forall|k: int|
            0 <= k < doc_titles(docs, t).len() ==> has_title(
                docs,
                t,
                #[trigger] doc_titles(docs, t)[k],
            ),
        key_unique(docs) ==> forall|k1: int, k2: int|
            0 <= k1 < k2 < doc_titles(docs, t).len() ==> doc_titles(docs, t)[k1] != doc_titles(
                docs,
                t,
            )[k2],
    decreases docs.len(),
{
    if docs.len() > 0 {
        let dl = docs.drop_last();
        lemma_doc_titles_props(dl, t);
        let rr = doc_titles(dl, t);
        let r = doc_titles(docs, t);
        assert forall|k: int| 0 <= k < rr.len() implies has_title(docs, t, #[trigger] rr[k]) by {
            let j = choose|j: int|
                0 <= j < dl.len() && (#[trigger] dl[j]).tenant_id == t && dl[j].title == rr[k];
            assert(docs[j] == dl[j]);
            assert(docs[j].tenant_id == t && docs[j].title == rr[k]);
        }
        if docs.last().tenant_id == t {
            assert(r == rr.push(docs.last().title));
            assert forall|k: int| 0 <= k < r.len() implies has_title(docs, t, #[trigger] r[k]) by {
                if k < rr.len() {
                    assert(r[k] == rr[k]);
                } else {
                    assert(r[k] == docs.last().title);
                    assert(docs[docs.len() - 1] == docs.last());
                    assert(docs[docs.len() - 1].tenant_id == t && docs[docs.len() - 1].title
                        == r[k]);
                }
            }
        } else {
            assert(r == rr);
        }
        if key_unique(docs) {
            assert forall|i: int, j: int| 0 <= i < j < dl.len() implies !(dl[i].tenant_id
                == dl[j].tenant_id && dl[i].title == dl[j].title) by {
                assert(dl[i] == docs[i] && dl[j] == docs[j]);
            }
            if docs.last().tenant_id == t {
                assert forall|k1: int, k2: int| 0 <= k1 < k2 < r.len() implies r[k1] != r[k2] by {
                    if k2 < rr.len() {
                        assert(r[k1] == rr[k1] && r[k2] == rr[k2]);
                    } else {
                        assert(r[k1] == rr[k1] && r[k2] == docs.last().title);
                        let j = choose|j: int|
                            0 <= j < dl.len() && (#[trigger] dl[j]).tenant_id == t && dl[j].title
                                == rr[k1];
                        assert(docs[j] == dl[j]);
                        assert(docs.last() == docs[docs.len() - 1]);
                    }
                }
            } else {
                assert forall|k1: int, k2: int| 0 <= k1 < k2 < r.len() implies r[k1] != r[k2] by {
                    assert(r[k1] == rr[k1] && r[k2] == rr[k2]);
                }
            }
        }
    }
}

/// Cache consistency: the titles a freshly refreshed cache reports for tenant
/// `t` are exactly the store's titles for `t`, in store order and without
/// duplicates.
pub proof fn lemma_cache_consistency(docs: Seq<DocView>, t: int)
    requires
        key_unique(docs),
    ensures
        tenant_titles(entries_of(docs), t) == doc_titles(docs, t),
        forall|k1: int, k2: int|
            0 <= k1 < k2 < doc_titles(docs, t).len() ==> doc_titles(docs, t)[k1] != doc_titles(
                docs,
                t,
            )[k2],
    decreases docs.len(),
{
    lemma_doc_titles_props(docs, t);
    if docs.len() > 0 {
        let dl = docs.drop_last();
        assert forall|i: int, j: int| 0 <= i < j < dl.len() implies !(dl[i].tenant_id
            == dl[j].tenant_id && dl[i].title == dl[j].title) by {
            assert(dl[i] == docs[i] && dl[j] == docs[j]);
        }
        lemma_cache_consistency(dl, t);
        let c = entries_of(docs);
        assert(c.drop_last() =~= entries_of(dl));
        assert(c.last() == CacheEntryView {
            server_id: docs.last().tenant_id,
            title: docs.last().title,
        }) by {
            assert(c[docs.len() - 1] == CacheEntryView {
                server_id: docs[docs.len() - 1].tenant_id,
                title: docs[docs.len() - 1].title,
            });
        }
    } else {
        assert(entries_of(docs) =~= Seq::<CacheEntryView>::empty());
    }
}

} // verus!
