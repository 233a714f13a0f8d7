use vstd::prelude::*;
use crate::normalize::{normalize_title, norm_title};
use crate::store::{
    Document, DocView, Store, find_doc, upserted, drop_removed, key_unique, opt_view,
    deref_alias, lemma_drop_key_noop, lemma_find_doc_props, lemma_find_doc_push_stable,
};

verus! {

/// Why a link command was refused.
#[derive(Clone, Copy, Debug, PartialEq, Eq, Structural)]
pub enum LinkError {
    /// An entry with the new alias's title already exists.
    TitleExists,
    /// The entry to link to does not exist.
    TargetMissing,
}

/// The document view an `add` writes.
pub open spec fn added_doc(
    t: int,
    title: Seq<char>,
    content: Option<Seq<char>>,
    image_ref: Option<Seq<char>>,
    edit_time: int,
    author_id: int,
) -> DocView {
    DocView {
        tenant_id: t,
        title: title,
        content: content,
        image_ref: image_ref,
        alias_target: None,
        edit_time: edit_time,
        author_id: author_id,
    }
}

/// The document view a `link` writes: no content of its own, only a target.
pub open spec fn alias_doc(
    t: int,
    title: Seq<char>,
    target: Seq<char>,
    edit_time: int,
    author_id: int,
) -> DocView {
    DocView {
        tenant_id: t,
        title: title,
        content: None,
        image_ref: None,
        alias_target: Some(target),
        edit_time: edit_time,
        author_id: author_id,
    }
}

/// Where a new alias must point: at the target itself when it bears content,
/// else at the target's own alias target — chains collapse to depth one at
/// write time.
pub open spec fn flatten_target(e: DocView, to_key: Seq<char>) -> Seq<char> {
    match e.alias_target {
        Some(t) => t,
        None => to_key,
    }
}

/// Creates or replaces the FAQ entry `name` for the tenant: the title is
/// normalized before the write, and a previous entry of the same key is
/// deleted first, never duplicated. Reports whether one existed.
pub fn add(
    store: &mut Store,
    tenant_id: i64,
    name: &str,
    content: Option<String>,
    image_ref: Option<String>,
    edit_time: i64,
    author_id: i64,
) -> (pre_existing: bool)
    ensures
        pre_existing == (find_doc(old(store)@, tenant_id as int, norm_title(name@)) is Some),
        final(store)@ == upserted(
            old(store)@,
            added_doc(
                tenant_id as int,
                norm_title(name@),
                opt_view(content),
                opt_view(image_ref),
                edit_time as int,
                author_id as int,
            ),
        ),
        old(store).wf() ==> final(store).wf(),
{
    let key = normalize_title(name);
    let pre_existing = match store.get(tenant_id, key.as_str()) {
        Some(_) => true,
        None => false,
    };
    let d = Document {
        tenant_id: tenant_id,
        title: key,
        content: content,
        image_ref: image_ref,
        alias_target: None,
        edit_time: edit_time,
        author_id: author_id,
    };
    store.upsert(d);
    pre_existing
}

/// The remove command's write: deletes the entry titled `name` (normalized)
/// together with every alias of the tenant pointing at it, and reports how
/// many rows went away — zero means the entry did not exist.
pub fn remove(store: &mut Store, tenant_id: i64, name: &str) -> (n: usize)
    ensures
        final(store)@ == drop_removed(old(store)@, tenant_id as int, norm_title(name@)),
        n == old(store)@.len() - final(store)@.len(),
        old(store).wf() ==> final(store).wf(),
{
    let key = normalize_title(name);
    store.delete(tenant_id, key.as_str())
}

/// The link command: stores `name` (normalized) as an alias of `link_to`
/// (normalized). The stored target is `link_to` itself when that entry bears
/// content, else that entry's own target, so alias chains never exceed one
/// hop. Refused when `name` is already taken or `link_to` does not exist;
/// on success returns the stored target title.
pub fn link(
    store: &mut Store,
    tenant_id: i64,
    name: &str,
    link_to: &str,
    edit_time: i64,
    author_id: i64,
) -> (r: Result<String, LinkError>)
    ensures
        match r {
            Ok(stored) => find_doc(old(store)@, tenant_id as int, norm_title(name@)) is None
                && match find_doc(old(store)@, tenant_id as int, norm_title(link_to@)) {
                Some(e) => stored@ == flatten_target(e, norm_title(link_to@)) && final(store)@
                    == old(store)@.push(
                    alias_doc(
                        tenant_id as int,
                        norm_title(name@),
                        stored@,
                        edit_time as int,
                        author_id as int,
                    ),
                ),
                None => false,
            },
            Err(LinkError::TitleExists) => find_doc(
                old(store)@,
                tenant_id as int,
                norm_title(name@),
            ) is Some && final(store)@ == old(store)@,
            Err(LinkError::TargetMissing) => find_doc(
                old(store)@,
                tenant_id as int,
                norm_title(name@),
            ) is None && find_doc(old(store)@, tenant_id as int, norm_title(link_to@)) is None
                && final(store)@ == old(store)@,
        },
        old(store).wf() ==> final(store).wf(),
{
    let key = normalize_title(name);
    let to_key = normalize_title(link_to);
    let exists_already = match store.get(tenant_id, key.as_str()) {
        Some(_) => true,
        None => false,
    };
    if exists_already {
        return Err(LinkError::TitleExists);
    }
    let target: Option<String> = match store.get(tenant_id, to_key.as_str()) {
        Some(e) => match &e.alias_target {
            Some(t2) => Some(t2.clone()),
            None => Some(to_key.clone()),
        },
        None => None,
    };
    match target {
        None => Err(LinkError::TargetMissing),
        Some(tgt) => {
            let stored = tgt.clone();
            let d = Document {
                tenant_id: tenant_id,
                title: key,
                content: None,
                image_ref: None,
                alias_target: Some(tgt),
                edit_time: edit_time,
                author_id: author_id,
            };
            proof {
                lemma_find_doc_props(store@, tenant_id as int, d@.title);
                lemma_drop_key_noop(store@, tenant_id as int, d@.title);
            }
            store.upsert(d);
            Ok(stored)
        },
    }
}

/// Alias flattening: when `b` is an alias of a content-bearing `a`, linking a
/// new title `c` to `b` points `c` straight at `a` — and one hop from the new
/// row reaches `a` itself, so reads never chase chains.
pub proof fn lemma_alias_flattening(
    docs: Seq<DocView>,
    t: int,
    a: DocView,
    b: DocView,
    c_title: Seq<char>,
    edit_time: int,
    author_id: int,
)
    requires
        key_unique(docs),
        find_doc(docs, t, a.title) == Some(a),
        a.alias_target is None,
        find_doc(docs, t, b.title) == Some(b),
        b.alias_target == Some(a.title),
    ensures
        flatten_target(b, b.title) == a.title,
        deref_alias(
            docs.push(alias_doc(t, c_title, flatten_target(b, b.title), edit_time, author_id)),
            alias_doc(t, c_title, flatten_target(b, b.title), edit_time, author_id),
        ) == Some(a),
{
    lemma_find_doc_push_stable(
        docs,
        alias_doc(t, c_title, a.title, edit_time, author_id),
        t,
        a.title,
    );
}

} // verus!
