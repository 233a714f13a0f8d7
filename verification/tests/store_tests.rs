use faq_resolver::ops::{add, link, remove, LinkError};
use faq_resolver::store::{Document, Store};

fn doc(tenant_id: i64, title: &str, content: Option<&str>, alias: Option<&str>) -> Document {
    Document {
        tenant_id,
        title: String::from(title),
        content: content.map(String::from),
        image_ref: None,
        alias_target: alias.map(String::from),
        edit_time: 0,
        author_id: 7,
    }
}

#[test]
fn upsert_then_get_returns_what_was_stored() {
    let mut store = Store::new();
    store.upsert(doc(1, "Blueprint", Some("first body"), None));
    let d = store.get(1, "Blueprint").expect("entry must exist");
    assert_eq!(d.title, "Blueprint");
    assert_eq!(d.content.as_deref(), Some("first body"));
    assert_eq!(d.tenant_id, 1);
}

#[test]
fn upsert_replaces_instead_of_duplicating() {
    let mut store = Store::new();
    store.upsert(doc(1, "Blueprint", Some("first body"), None));
    store.upsert(doc(1, "Blueprint", Some("second body"), None));
    assert_eq!(store.len(), 1);
    let d = store.get(1, "Blueprint").expect("entry must exist");
    assert_eq!(d.content.as_deref(), Some("second body"));
}

#[test]
fn tenants_do_not_see_each_other() {
    let mut store = Store::new();
    store.upsert(doc(1, "Blueprint", Some("body"), None));
    assert!(store.get(2, "Blueprint").is_none());
    store.upsert(doc(2, "Blueprint", Some("other body"), None));
    assert_eq!(store.len(), 2);
    assert_eq!(
        store.get(2, "Blueprint").unwrap().content.as_deref(),
        Some("other body")
    );
    assert_eq!(
        store.get(1, "Blueprint").unwrap().content.as_deref(),
        Some("body")
    );
}

#[test]
fn add_normalizes_and_reports_pre_existing() {
    let mut store = Store::new();
    let pre = add(&mut store, 1, "bLUEPRINT", Some(String::from("body")), None, 5, 9);
    assert!(!pre);
    assert!(store.get(1, "Blueprint").is_some());
    let pre2 = add(&mut store, 1, "blueprint", Some(String::from("new body")), None, 6, 9);
    assert!(pre2);
    assert_eq!(store.len(), 1);
    assert_eq!(
        store.get(1, "Blueprint").unwrap().content.as_deref(),
        Some("new body")
    );
}

#[test]
fn link_flattens_alias_chains() {
    let mut store = Store::new();
    add(&mut store, 1, "alpha", Some(String::from("content of A")), None, 0, 1);
    let stored_b = link(&mut store, 1, "beta", "alpha", 1, 1).expect("linking to content works");
    assert_eq!(stored_b, "Alpha");
    // Linking to the alias must store the final target, never the link itself.
    let stored_c = link(&mut store, 1, "gamma", "beta", 2, 1).expect("linking to an alias works");
    assert_eq!(stored_c, "Alpha");
    let c = store.get(1, "Gamma").expect("the alias row exists");
    assert_eq!(c.alias_target.as_deref(), Some("Alpha"));
    assert!(c.content.is_none());
}

#[test]
fn link_refuses_taken_titles_and_missing_targets() {
    let mut store = Store::new();
    add(&mut store, 1, "alpha", Some(String::from("body")), None, 0, 1);
    assert_eq!(
        link(&mut store, 1, "alpha", "alpha", 0, 1),
        Err(LinkError::TitleExists)
    );
    assert_eq!(
        link(&mut store, 1, "beta", "ghost", 0, 1),
        Err(LinkError::TargetMissing)
    );
    assert_eq!(store.len(), 1);
}

#[test]
fn remove_deletes_entry_and_aliases_pointing_at_it() {
    let mut store = Store::new();
    add(&mut store, 1, "alpha", Some(String::from("body")), None, 0, 1);
    link(&mut store, 1, "beta", "alpha", 1, 1).unwrap();
    add(&mut store, 1, "other", Some(String::from("stays")), None, 2, 1);
    let n = remove(&mut store, 1, "ALPHA");
    assert_eq!(n, 2);
    assert!(store.get(1, "Alpha").is_none());
    assert!(store.get(1, "Beta").is_none());
    assert!(store.get(1, "Other").is_some());
}

#[test]
fn remove_reports_zero_for_missing_entries() {
    let mut store = Store::new();
    let n = remove(&mut store, 1, "ghost");
    assert_eq!(n, 0);
}

#[test]
fn remove_tenant_clears_only_that_tenant() {
    let mut store = Store::new();
    add(&mut store, 1, "alpha", Some(String::from("a")), None, 0, 1);
    add(&mut store, 1, "beta", Some(String::from("b")), None, 0, 1);
    add(&mut store, 2, "alpha", Some(String::from("a2")), None, 0, 1);
    let n = store.remove_tenant(1);
    assert_eq!(n, 2);
    assert_eq!(store.len(), 1);
    assert!(store.get(2, "Alpha").is_some());
}
