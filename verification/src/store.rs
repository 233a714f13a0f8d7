use vstd::prelude::*;

verus! {

/// A stored FAQ document: either content-bearing or an alias that redirects
/// to another title of the same tenant.
#[derive(Debug)]
pub struct Document {
    pub tenant_id: i64,
    pub title: String,
    pub content: Option<String>,
    pub image_ref: Option<String>,
    pub alias_target: Option<String>,
    pub edit_time: i64,
    pub author_id: i64,
}

/// The mathematical value of a `Document`.
#[verifier::ext_equal]
pub ghost struct DocView {
    pub tenant_id: int,
    pub title: Seq<char>,
    pub content: Option<Seq<char>>,
    pub image_ref: Option<Seq<char>>,
    pub alias_target: Option<Seq<char>>,
    pub edit_time: int,
    pub author_id: int,
}

pub open spec fn opt_view(o: Option<String>) -> Option<Seq<char>> {
    match o {
        Some(s) => Some(s@),
        None => None,
    }
}

impl View for Document {
    type V = DocView;

    open spec fn view(&self) -> DocView {
        DocView {
            tenant_id: self.tenant_id as int,
            title: self.title@,
            content: opt_view(self.content),
            image_ref: opt_view(self.image_ref),
            alias_target: opt_view(self.alias_target),
            edit_time: self.edit_time as int,
            author_id: self.author_id as int,
        }
    }
}

pub fn clone_opt_string(o: &Option<String>) -> (r: Option<String>)
    ensures
        r == *o,
{
    match o {
        Some(s) => Some(s.clone()),
        None => None,
    }
}

impl Document {
    pub fn duplicate(&self) -> (r: Document)
        ensures
            r == *self,
    {
        Document {
            tenant_id: self.tenant_id,
            title: self.title.clone(),
            content: clone_opt_string(&self.content),
            image_ref: clone_opt_string(&self.image_ref),
            alias_target: clone_opt_string(&self.alias_target),
            edit_time: self.edit_time,
            author_id: self.author_id,
        }
    }
}

/// Whether `x` occupies the primary key `(t, title)`.
pub open spec fn key_match(x: DocView, t: int, title: Seq<char>) -> bool {
    x.tenant_id == t && x.title == title
}

/// Whether the removal of key `(t, key)` takes `x` with it: a removal deletes
/// the document of that title and every alias of the tenant that points at it.
pub open spec fn removal_match(x: DocView, t: int, key: Seq<char>) -> bool {
    x.tenant_id == t && (x.title == key || x.alias_target == Some(key))
}

/// No two documents share a `(tenant_id, title)` primary key.
pub open spec fn key_unique(s: Seq<DocView>) -> bool {
    forall|i: int, j: int|
        0 <= i < j < s.len() ==> !(s[i].tenant_id == s[j].tenant_id && s[i].title == s[j].title)
}

/// The first document with key `(t, title)`, if any. Under `key_unique` it is
/// the only one.
pub open spec fn find_doc(s: Seq<DocView>, t: int, title: Seq<char>) -> Option<DocView>
    decreases s.len(),
{
    if s.len() == 0 {
        None
    } else if key_match(s[0], t, title) {
        Some(s[0])
    } else {
        find_doc(s.drop_first(), t, title)
    }
}

/// The store's rows with key `(t, title)` dropped, order kept.
pub open spec fn drop_key(s: Seq<DocView>, t: int, title: Seq<char>) -> Seq<DocView>
    decreases s.len(),
{
    if s.len() == 0 {
        Seq::<DocView>::empty()
    } else if key_match(s.last(), t, title) {
        drop_key(s.drop_last(), t, title)
    } else {
        drop_key(s.drop_last(), t, title).push(s.last())
    }
}

/// The store's rows after the removal of key `(t, key)`: the titled document
/// and the tenant's aliases of it are gone, order kept.
pub open spec fn drop_removed(s: Seq<DocView>, t: int, key: Seq<char>) -> Seq<DocView>
    decreases s.len(),
{
    if s.len() == 0 {
        Seq::<DocView>::empty()
    } else if removal_match(s.last(), t, key) {
        drop_removed(s.drop_last(), t, key)
    } else {
        drop_removed(s.drop_last(), t, key).push(s.last())
    }
}

/// The store's rows after every document of tenant `t` is dropped.
pub open spec fn drop_tenant(s: Seq<DocView>, t: int) -> Seq<DocView>
    decreases s.len(),
{
    if s.len() == 0 {
        Seq::<DocView>::empty()
    } else if s.last().tenant_id == t {
        drop_tenant(s.drop_last(), t)
    } else {
        drop_tenant(s.drop_last(), t).push(s.last())
    }
}

/// The store's contents after `upsert(d)`: every row with `d`'s key dropped,
/// then `d` appended — delete-then-insert.
pub open spec fn upserted(s: Seq<DocView>, d: DocView) -> Seq<DocView> {
    drop_key(s, d.tenant_id, d.title).push(d)
}

/// One alias hop: the content-bearing record a stored document stands for.
/// A document without an alias target stands for itself; one with a target
/// stands for the target's record, which is missing exactly when the alias
/// is broken.
pub open spec fn deref_alias(docs: Seq<DocView>, d: DocView) -> Option<DocView> {
    match d.alias_target {
        None => Some(d),
        Some(tgt) => find_doc(docs, d.tenant_id, tgt),
    }
}

/// Dropping an absent key changes nothing.
pub proof fn lemma_drop_key_noop(s: Seq<DocView>, t: int, title: Seq<char>)
    requires
        forall|i: int| 0 <= i < s.len() ==> !key_match(#[trigger] s[i], t, title),
    ensures
        drop_key(s, t, title) == s,
    decreases s.len(),
{
    if s.len() > 0 {
        let dl = s.drop_last();
        assert forall|i: int| 0 <= i < dl.len() implies !key_match(#[trigger] dl[i], t, title) by {
            assert(dl[i] == s[i]);
        }
        lemma_drop_key_noop(dl, t, title);
        assert(s[s.len() - 1] == s.last());
        assert(drop_key(s, t, title) =~= s);
    }
}

/// A lookup that already succeeds is unmoved by appending another row:
/// `find_doc` takes the first match.
pub proof fn lemma_find_doc_push_stable(s: Seq<DocView>, d: DocView, t: int, title: Seq<char>)
    requires
        find_doc(s, t, title) is Some,
    ensures
        find_doc(s.push(d), t, title) == find_doc(s, t, title),
    decreases s.len(),
{
    if s.len() > 0 {
        assert(s.push(d)[0] == s[0]);
        if !key_match(s[0], t, title) {
            assert(s.push(d).drop_first() =~= s.drop_first().push(d));
            lemma_find_doc_push_stable(s.drop_first(), d, t, title);
        }
    }
}

proof fn lemma_find_doc_skip_step(s: Seq<DocView>, t: int, title: Seq<char>, i: int)
    requires
        0 <= i < s.len(),
        !key_match(s[i as int], t, title),
    ensures
        find_doc(s.skip(i), t, title) == find_doc(s.skip(i + 1), t, title),
{
    assert(s.skip(i).len() > 0);
    assert(s.skip(i)[0] == s[i]);
    assert(s.skip(i).drop_first() =~= s.skip(i + 1));
}

/// `find_doc` returns a key-matching element, and returns one exactly when
/// one is present.
pub proof fn lemma_find_doc_props(s: Seq<DocView>, t: int, title: Seq<char>)
    ensures
        match find_doc(s, t, title) {
            Some(d) => key_match(d, t, title) && exists|i: int|
                0 <= i < s.len() && s[i] == d && key_match(#[trigger] s[i], t, title),
            None => forall|i: int| 0 <= i < s.len() ==> !key_match(#[trigger] s[i], t, title),
        },
    decreases s.len(),
{
    if s.len() > 0 {
        if !key_match(s[0], t, title) {
            lemma_find_doc_props(s.drop_first(), t, title);
            match find_doc(s, t, title) {
                Some(d) => {
                    let i = choose|i: int|
                        0 <= i < s.drop_first().len() && s.drop_first()[i] == d && key_match(
                            #[trigger] s.drop_first()[i],
                            t,
                            title,
                        );
                    assert(s[i + 1] == d && key_match(s[i + 1], t, title));
                },
                None => {
                    assert forall|i: int| 0 <= i < s.len() implies !key_match(
                        #[trigger] s[i],
                        t,
                        title,
                    ) by {
                        if i > 0 {
                            assert(s.drop_first()[i - 1] == s[i]);
                        }
                    }
                },
            }
        }
    }
}

/// Every row that `drop_key` keeps misses the dropped key, comes from `s`,
/// and the result stays key-unique when `s` was.
proof fn lemma_drop_key_props(s: Seq<DocView>, t: int, title: Seq<char>)
    ensures
        forall|k: int|
            0 <= k < drop_key(s, t, title).len() ==> !key_match(
                #[trigger] drop_key(s, t, title)[k],
                t,
                title,
            ) && s.contains(drop_key(s, t, title)[k]),
        key_unique(s) ==> key_unique(drop_key(s, t, title)),
    decreases s.len(),
{
    if s.len() > 0 {
        let dl = s.drop_last();
        lemma_drop_key_props(dl, t, title);
        let rr = drop_key(dl, t, title);
        let r = drop_key(s, t, title);
        assert forall|k: int| 0 <= k < rr.len() implies s.contains(rr[k]) by {
            let j = choose|j: int| 0 <= j < dl.len() && dl[j] == rr[k];
            assert(s[j] == rr[k]);
        }
        if !key_match(s.last(), t, title) {
            assert(r == rr.push(s.last()));
            assert(s.contains(s.last())) by {
                assert(s[s.len() - 1] == s.last());
            }
            assert forall|k: int| 0 <= k < r.len() implies !key_match(#[trigger] r[k], t, title)
                && s.contains(r[k]) by {
                if k < rr.len() {
                    assert(r[k] == rr[k]);
                } else {
                    assert(r[k] == s.last());
                }
            }
        }
        if key_unique(s) {
            assert forall|i: int, j: int| 0 <= i < j < dl.len() implies !(dl[i].tenant_id
                == dl[j].tenant_id && dl[i].title == dl[j].title) by {
                assert(dl[i] == s[i] && dl[j] == s[j]);
            }
            if !key_match(s.last(), t, title) {
                assert forall|i: int, j: int| 0 <= i < j < r.len() implies !(r[i].tenant_id
                    == r[j].tenant_id && r[i].title == r[j].title) by {
                    if j < rr.len() {
                        assert(r[i] == rr[i] && r[j] == rr[j]);
                    } else {
                        assert(r[i] == rr[i] && r[j] == s.last());
                        let m = choose|m: int| 0 <= m < dl.len() && dl[m] == rr[i];
                        assert(s[m] == rr[i]);
                        assert(s.last() == s[s.len() - 1]);
                    }
                }
            }
        }
    }
}

/// If no element of `s` occupies the key `(t, title)`, then `find_doc` on
/// `s.push(d)` returns `d`.
proof fn lemma_find_doc_push(s: Seq<DocView>, d: DocView, t: int, title: Seq<char>)
    requires
        forall|i: int| 0 <= i < s.len() ==> !key_match(#[trigger] s[i], t, title),
        key_match(d, t, title),
    ensures
        find_doc(s.push(d), t, title) == Some(d),
    decreases s.len(),
{
    if s.len() == 0 {
        assert(s.push(d)[0] == d);
    } else {
        assert(s.push(d)[0] == s[0]);
        assert(s.push(d).drop_first() =~= s.drop_first().push(d));
        assert forall|i: int| 0 <= i < s.drop_first().len() implies !key_match(
            #[trigger] s.drop_first()[i],
            t,
            title,
        ) by {
            assert(s.drop_first()[i] == s[i + 1]);
        }
        lemma_find_doc_push(s.drop_first(), d, t, title);
    }
}

/// Upsert invariant: after `upsert(d)`, looking `d`'s key up returns exactly
/// `d`, and the store still holds no duplicate keys.
pub proof fn lemma_upsert_get(s: Seq<DocView>, d: DocView)
    requires
        key_unique(s),
    ensures
        find_doc(upserted(s, d), d.tenant_id, d.title) == Some(d),
        key_unique(upserted(s, d)),
{
    lemma_drop_key_props(s, d.tenant_id, d.title);
    let f = drop_key(s, d.tenant_id, d.title);
    lemma_find_doc_push(f, d, d.tenant_id, d.title);
    let r = upserted(s, d);
    assert forall|i: int, j: int| 0 <= i < j < r.len() implies !(r[i].tenant_id == r[j].tenant_id
        && r[i].title == r[j].title) by {
        if j < f.len() {
            assert(r[i] == f[i] && r[j] == f[j]);
        } else {
            assert(r[i] == f[i] && r[j] == d);
        }
    }
}

/// Like `lemma_drop_key_props`, for `drop_removed`.
proof fn lemma_drop_removed_props(s: Seq<DocView>, t: int, key: Seq<char>)
    ensures
        forall|k: int|
            0 <= k < drop_removed(s, t, key).len() ==> !removal_match(
                #[trigger] drop_removed(s, t, key)[k],
                t,
                key,
            ) && s.contains(drop_removed(s, t, key)[k]),
        key_unique(s) ==> key_unique(drop_removed(s, t, key)),
        drop_removed(s, t, key).len() <= s.len(),
    decreases s.len(),
{
    if s.len() > 0 {
        let dl = s.drop_last();
        lemma_drop_removed_props(dl, t, key);
        let rr = drop_removed(dl, t, key);
        let r = drop_removed(s, t, key);
        assert forall|k: int| 0 <= k < rr.len() implies s.contains(rr[k]) by {
            let j = choose|j: int| 0 <= j < dl.len() && dl[j] == rr[k];
            assert(s[j] == rr[k]);
        }
        if !removal_match(s.last(), t, key) {
            assert(r == rr.push(s.last()));
            assert(s.contains(s.last())) by {
                assert(s[s.len() - 1] == s.last());
            }
            assert forall|k: int| 0 <= k < r.len() implies !removal_match(#[trigger] r[k], t, key)
                && s.contains(r[k]) by {
                if k < rr.len() {
                    assert(r[k] == rr[k]);
                } else {
                    assert(r[k] == s.last());
                }
            }
        }
        if key_unique(s) {
            assert forall|i: int, j: int| 0 <= i < j < dl.len() implies !(dl[i].tenant_id
                == dl[j].tenant_id && dl[i].title == dl[j].title) by {
                assert(dl[i] == s[i] && dl[j] == s[j]);
            }
            if !removal_match(s.last(), t, key) {
                assert forall|i: int, j: int| 0 <= i < j < r.len() implies !(r[i].tenant_id
                    == r[j].tenant_id && r[i].title == r[j].title) by {
                    if j < rr.len() {
                        assert(r[i] == rr[i] && r[j] == rr[j]);
                    } else {
                        assert(r[i] == rr[i] && r[j] == s.last());
                        let m = choose|m: int| 0 <= m < dl.len() && dl[m] == rr[i];
                        assert(s[m] == rr[i]);
                        assert(s.last() == s[s.len() - 1]);
                    }
                }
            }
        }
    }
}

/// Like `lemma_drop_key_props`, for `drop_tenant`.
proof fn lemma_drop_tenant_props(s: Seq<DocView>, t: int)
    ensures
        forall|k: int|
            0 <= k < drop_tenant(s, t).len() ==> (#[trigger] drop_tenant(s, t)[k]).tenant_id != t
                && s.contains(drop_tenant(s, t)[k]),
        key_unique(s) ==> key_unique(drop_tenant(s, t)),
        drop_tenant(s, t).len() <= s.len(),
    decreases s.len(),
{
    if s.len() > 0 {
        let dl = s.drop_last();
        lemma_drop_tenant_props(dl, t);
        let rr = drop_tenant(dl, t);
        let r = drop_tenant(s, t);
        assert forall|k: int| 0 <= k < rr.len() implies s.contains(rr[k]) by {
            let j = choose|j: int| 0 <= j < dl.len() && dl[j] == rr[k];
            assert(s[j] == rr[k]);
        }
        if s.last().tenant_id != t {
            assert(r == rr.push(s.last()));
            assert(s.contains(s.last())) by {
                assert(s[s.len() - 1] == s.last());
            }
            assert forall|k: int| 0 <= k < r.len() implies (#[trigger] r[k]).tenant_id != t
                && s.contains(r[k]) by {
                if k < rr.len() {
                    assert(r[k] == rr[k]);
                } else {
                    assert(r[k] == s.last());
                }
            }
        }
        if key_unique(s) {
            assert forall|i: int, j: int| 0 <= i < j < dl.len() implies !(dl[i].tenant_id
                == dl[j].tenant_id && dl[i].title == dl[j].title) by {
                assert(dl[i] == s[i] && dl[j] == s[j]);
            }
            if s.last().tenant_id != t {
                assert forall|i: int, j: int| 0 <= i < j < r.len() implies !(r[i].tenant_id
                    == r[j].tenant_id && r[i].title == r[j].title) by {
                    if j < rr.len() {
                        assert(r[i] == rr[i] && r[j] == rr[j]);
                    } else {
                        assert(r[i] == rr[i] && r[j] == s.last());
                        let m = choose|m: int| 0 <= m < dl.len() && dl[m] == rr[i];
                        assert(s[m] == rr[i]);
                        assert(s.last() == s[s.len() - 1]);
                    }
                }
            }
        }
    }
}

/// The persistent mapping from `(tenant_id, title)` to documents, modelled
/// in memory: an insertion-ordered row list with unique primary keys.
pub struct Store {
    docs: Vec<Document>,
}

pub open spec fn docs_view(v: Seq<Document>) -> Seq<DocView> {
    v.map_values(|x: Document| x@)
}

impl View for Store {
    type V = Seq<DocView>;

    closed spec fn view(&self) -> Seq<DocView> {
        docs_view(self.docs@)
    }
}

impl Store {
    /// The store's one invariant: `(tenant_id, title)` is a primary key.
    pub open spec fn wf(&self) -> bool {
        key_unique(self@)
    }

    pub fn new() -> (r: Store)
        ensures
            r@ == Seq::<DocView>::empty(),
            r.wf(),
    {
        let r = Store { docs: Vec::new() };
        assert(r@ =~= Seq::<DocView>::empty());
        r
    }

    /// Exact lookup of the document stored under `(tenant_id, title)`.
    pub fn get<'a>(&'a self, tenant_id: i64, title: &str) -> (r: Option<&'a Document>)
        ensures
            match r {
                Some(d) => find_doc(self@, tenant_id as int, title@) == Some(d@),
                None => find_doc(self@, tenant_id as int, title@) is None,
            },
    {
        let key: String = title.to_owned();
        let n = self.docs.len();
        let mut i: usize = 0;
        assert(self@.skip(0) =~= self@);
        while i < n
            invariant
                0 <= i <= n,
                n == self.docs.len(),
                key@ == title@,
                find_doc(self@, tenant_id as int, title@) == find_doc(
                    self@.skip(i as int),
                    tenant_id as int,
                    title@,
                ),
            decreases n - i,
        {
            let d = &self.docs[i];
            assert(self@[i as int] == d@);
            if d.tenant_id == tenant_id && d.title == key {
                assert(self@.skip(i as int)[0] == self@[i as int]);
                return Some(d);
            }
            proof {
                lemma_find_doc_skip_step(self@, tenant_id as int, title@, i as int);
            }
            i = i + 1;
        }
        assert(self@.skip(n as int) =~= Seq::<DocView>::empty());
        None
    }

    /// Stores `d` under its `(tenant_id, title)` key, first deleting any
    /// previous document of that key: delete-then-insert, never a failure.
    pub fn upsert(&mut self, d: Document)
        ensures
            final(self)@ == upserted(old(self)@, d@),
            old(self).wf() ==> final(self).wf(),
    {
        let mut out: Vec<Document> = Vec::new();
        let n = self.docs.len();
        let mut i: usize = 0;
        assert(self@.take(0) =~= Seq::<DocView>::empty());
        while i < n
            invariant
                0 <= i <= n,
                n == self.docs.len(),
                docs_view(out@) == drop_key(self@.take(i as int), d@.tenant_id, d@.title),
            decreases n - i,
        {
            let x = &self.docs[i];
            assert(self@[i as int] == x@);
            assert(self@.take(i + 1).drop_last() =~= self@.take(i as int));
            assert(self@.take(i + 1).last() == self@[i as int]);
            if !(x.tenant_id == d.tenant_id && x.title == d.title) {
                assert(!key_match(x@, d@.tenant_id, d@.title));
                let dup = x.duplicate();
                out.push(dup);
                assert(docs_view(out@) =~= drop_key(self@.take(i as int), d@.tenant_id, d@.title)
                    .push(x@));
            } else {
                assert(key_match(x@, d@.tenant_id, d@.title));
            }
            assert(docs_view(out@) == drop_key(self@.take(i + 1), d@.tenant_id, d@.title));
            i = i + 1;
        }
        assert(self@.take(n as int) =~= self@);
        proof {
            if old(self).wf() {
                lemma_upsert_get(self@, d@);
            }
        }
        out.push(d);
        self.docs = out;
        assert(self@ =~= upserted(old(self)@, d@));
    }

    /// Removes the document titled `key` of the given tenant together with
    /// every alias of that tenant that targets `key`; returns how many
    /// documents were removed.
    pub fn delete(&mut self, tenant_id: i64, key: &str) -> (n: usize)
        ensures
            final(self)@ == drop_removed(old(self)@, tenant_id as int, key@),
            n == old(self)@.len() - final(self)@.len(),
            old(self).wf() ==> final(self).wf(),
    {
        let keystr: String = key.to_owned();
        let mut out: Vec<Document> = Vec::new();
        let n = self.docs.len();
        let mut i: usize = 0;
        assert(self@.take(0) =~= Seq::<DocView>::empty());
        while i < n
            invariant
                0 <= i <= n,
                n == self.docs.len(),
                keystr@ == key@,
                docs_view(out@) == drop_removed(self@.take(i as int), tenant_id as int, key@),
                out@.len() <= i,
            decreases n - i,
        {
            let x = &self.docs[i];
            assert(self@[i as int] == x@);
            assert(self@.take(i + 1).drop_last() =~= self@.take(i as int));
            assert(self@.take(i + 1).last() == self@[i as int]);
            let is_alias_of_key = match &x.alias_target {
                Some(a) => *a == keystr,
                None => false,
            };
            assert(is_alias_of_key == (x@.alias_target == Some(key@)));
            if !(x.tenant_id == tenant_id && (x.title == keystr || is_alias_of_key)) {
                assert(!removal_match(x@, tenant_id as int, key@));
                let dup = x.duplicate();
                out.push(dup);
                assert(docs_view(out@) =~= drop_removed(
                    self@.take(i as int),
                    tenant_id as int,
                    key@,
                ).push(x@));
            } else {
                assert(removal_match(x@, tenant_id as int, key@));
            }
            assert(docs_view(out@) == drop_removed(self@.take(i + 1), tenant_id as int, key@));
            i = i + 1;
        }
        assert(self@.take(n as int) =~= self@);
        proof {
            lemma_drop_removed_props(self@, tenant_id as int, key@);
        }
        let removed_count = n - out.len();
        self.docs = out;
        removed_count
    }

    /// Removes every document of the given tenant, as when the tenant itself
    /// is dropped; returns how many documents were removed.
    pub fn remove_tenant(&mut self, tenant_id: i64) -> (n: usize)
        ensures
            final(self)@ == drop_tenant(old(self)@, tenant_id as int),
            n == old(self)@.len() - final(self)@.len(),
            old(self).wf() ==> final(self).wf(),
    {
        let mut out: Vec<Document> = Vec::new();
        let n = self.docs.len();
        let mut i: usize = 0;
        assert(self@.take(0) =~= Seq::<DocView>::empty());
        while i < n
            invariant
                0 <= i <= n,
                n == self.docs.len(),
                docs_view(out@) == drop_tenant(self@.take(i as int), tenant_id as int),
                out@.len() <= i,
            decreases n - i,
        {
            let x = &self.docs[i];
            assert(self@[i as int] == x@);
            assert(self@.take(i + 1).drop_last() =~= self@.take(i as int));
            assert(self@.take(i + 1).last() == self@[i as int]);
            if x.tenant_id != tenant_id {
                let dup = x.duplicate();
                out.push(dup);
                assert(docs_view(out@) =~= drop_tenant(self@.take(i as int), tenant_id as int).push(
                    x@,
                ));
            }
            assert(docs_view(out@) == drop_tenant(self@.take(i + 1), tenant_id as int));
            i = i + 1;
        }
        assert(self@.take(n as int) =~= self@);
        proof {
            lemma_drop_tenant_props(self@, tenant_id as int);
        }
        let removed_count = n - out.len();
        self.docs = out;
        removed_count
    }

    /// A read-only view of the stored rows, in store order.
    pub fn rows(&self) -> (r: &Vec<Document>)
        ensures
            docs_view(r@) == self@,
    {
        &self.docs
    }

    /// How many documents the store holds.
    pub fn len(&self) -> (n: usize)
        ensures
            n == self@.len(),
    {
        self.docs.len()
    }
}

} // verus!
