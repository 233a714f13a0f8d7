use faq_resolver::cache::TitleCache;
use faq_resolver::fuzzy::best_match;
use faq_resolver::ops::{add, link};
use faq_resolver::resolve::{refresh_cache, resolve, suggest, FaqError, ResolutionResult};
use faq_resolver::store::{Document, Store};

const SEP: char = ';';

fn blueprint_store() -> (Store, TitleCache) {
    let mut store = Store::new();
    add(
        &mut store,
        1,
        "blueprint",
        Some(String::from("Use blueprints to copy layouts.")),
        None,
        0,
        1,
    );
    let mut cache = TitleCache::new();
    refresh_cache(&store, &mut cache);
    (store, cache)
}

#[test]
fn scenario_exact_match() {
    let (store, cache) = blueprint_store();
    match resolve(&store, &cache, 1, "blueprint", SEP).unwrap() {
        ResolutionResult::Exact(d) => {
            assert_eq!(d.title, "Blueprint");
            assert_eq!(d.content.as_deref(), Some("Use blueprints to copy layouts."));
        },
        other => panic!("expected an exact match, got {:?}", other),
    }
}

#[test]
fn scenario_fuzzy_match() {
    let (store, cache) = blueprint_store();
    match resolve(&store, &cache, 1, "bluprint", SEP).unwrap() {
        ResolutionResult::Approximate(d, matched) => {
            assert_eq!(matched, "Blueprint");
            assert_eq!(d.content.as_deref(), Some("Use blueprints to copy layouts."));
        },
        other => panic!("expected an approximate match, got {:?}", other),
    }
}

#[test]
fn scenario_alias_keeps_exact_tag() {
    let (mut store, mut cache) = blueprint_store();
    link(&mut store, 1, "bp", "blueprint", 1, 1).unwrap();
    refresh_cache(&store, &mut cache);
    match resolve(&store, &cache, 1, "bp", SEP).unwrap() {
        ResolutionResult::Exact(d) => {
            assert_eq!(d.title, "Blueprint");
            assert_eq!(d.content.as_deref(), Some("Use blueprints to copy layouts."));
        },
        other => panic!("expected an exact match through the alias, got {:?}", other),
    }
}

#[test]
fn scenario_not_found_for_empty_tenant() {
    let (store, cache) = blueprint_store();
    match resolve(&store, &cache, 2, "anything", SEP).unwrap() {
        ResolutionResult::NotFound => {},
        other => panic!("expected no result, got {:?}", other),
    }
}

#[test]
fn scenario_broken_alias_is_an_error() {
    let mut store = Store::new();
    store.upsert(Document {
        tenant_id: 1,
        title: String::from("X"),
        content: None,
        image_ref: None,
        alias_target: Some(String::from("Ghost")),
        edit_time: 0,
        author_id: 1,
    });
    let mut cache = TitleCache::new();
    refresh_cache(&store, &mut cache);
    assert_eq!(
        resolve(&store, &cache, 1, "x", SEP).unwrap_err(),
        FaqError::BrokenAlias
    );
}

#[test]
fn resolution_uses_segment_before_separator() {
    let (store, cache) = blueprint_store();
    match resolve(&store, &cache, 1, "blueprint; trailing free text", SEP).unwrap() {
        ResolutionResult::Exact(d) => {
            assert_eq!(d.title, "Blueprint");
        },
        other => panic!("expected an exact match, got {:?}", other),
    }
}

#[test]
fn stale_cache_hit_resolves_to_not_found() {
    let (mut store, cache) = blueprint_store();
    // The cache still names Blueprint, but the store no longer holds it.
    store.delete(1, "Blueprint");
    match resolve(&store, &cache, 1, "bluprint", SEP).unwrap() {
        ResolutionResult::NotFound => {},
        other => panic!("expected no result on a stale cache, got {:?}", other),
    }
}

#[test]
fn cache_reports_exactly_the_tenants_titles() {
    let mut store = Store::new();
    add(&mut store, 1, "alpha", Some(String::from("a")), None, 0, 1);
    add(&mut store, 2, "beta", Some(String::from("b")), None, 0, 1);
    add(&mut store, 1, "gamma", Some(String::from("c")), None, 0, 1);
    let mut cache = TitleCache::new();
    refresh_cache(&store, &mut cache);
    let titles = cache.titles_for_tenant(1);
    assert_eq!(titles, vec![String::from("Alpha"), String::from("Gamma")]);
    assert_eq!(cache.titles_for_tenant(2), vec![String::from("Beta")]);
    assert!(cache.titles_for_tenant(3).is_empty());
}

#[test]
fn refresh_replaces_wholesale() {
    let mut store = Store::new();
    add(&mut store, 1, "alpha", Some(String::from("a")), None, 0, 1);
    let mut cache = TitleCache::new();
    refresh_cache(&store, &mut cache);
    assert_eq!(cache.len(), 1);
    store.delete(1, "Alpha");
    add(&mut store, 1, "beta", Some(String::from("b")), None, 0, 1);
    refresh_cache(&store, &mut cache);
    assert_eq!(cache.titles_for_tenant(1), vec![String::from("Beta")]);
}

#[test]
fn suggest_matches_prefixes_case_insensitively() {
    let mut store = Store::new();
    add(&mut store, 1, "blueprint", Some(String::from("a")), None, 0, 1);
    add(&mut store, 1, "blue circuit", Some(String::from("b")), None, 0, 1);
    add(&mut store, 1, "red circuit", Some(String::from("c")), None, 0, 1);
    add(&mut store, 2, "blue other tenant", Some(String::from("d")), None, 0, 1);
    let mut cache = TitleCache::new();
    refresh_cache(&store, &mut cache);
    let hits = suggest(&cache, 1, "BLUE");
    assert_eq!(
        hits,
        vec![String::from("Blueprint"), String::from("Blue circuit")]
    );
    assert!(suggest(&cache, 1, "zz").is_empty());
    let all = suggest(&cache, 1, "");
    assert_eq!(all.len(), 3);
}

#[test]
fn best_match_returns_nothing_below_threshold() {
    let titles = vec![String::from("Zzzz"), String::from("Qqqq")];
    assert!(best_match("Blueprint", &titles).is_none());
    assert!(best_match("Blueprint", &Vec::new()).is_none());
}

#[test]
fn best_match_picks_the_highest_scorer() {
    let titles = vec![
        String::from("Blue circuit"),
        String::from("Blueprint"),
        String::from("Red circuit"),
    ];
    assert_eq!(best_match("Bluprint", &titles).as_deref(), Some("Blueprint"));
}

#[test]
fn best_match_prefers_the_exact_title() {
    let titles = vec![String::from("Blueprint"), String::from("Bp")];
    assert_eq!(best_match("Bp", &titles).as_deref(), Some("Bp"));
}
