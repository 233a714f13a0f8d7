use faq_resolver::fuzzy::{best_match, trigram_matches};
use rust_fuzzy_search::{fuzzy_compare, fuzzy_search_best_n};

/// The score the library pins down exactly, as the reference crate reports it.
fn score_of(a: &str, b: &str) -> f32 {
    let num = trigram_matches(a, b) as f32;
    let den = (a.chars().count() + 1) as f32;
    num / den
}

#[test]
fn trigram_score_agrees_with_reference_crate() {
    let pairs = [
        ("Blueprint", "Blueprint"),
        ("Bluprint", "Blueprint"),
        ("Blueprint", "Bluprint"),
        ("Bp", "Blueprint"),
        ("", ""),
        ("", "Blueprint"),
        ("Blueprint", ""),
        ("kolbasobulko", "kolbasobulko"),
        ("varma", "varma vetero"),
        ("John Dep", "Dep John"),
    ];
    for (a, b) in pairs {
        assert_eq!(score_of(a, b), fuzzy_compare(a, b), "scores differ on {:?}/{:?}", a, b);
    }
}

#[test]
fn trigram_count_has_the_expected_value() {
    // "Bluprint" yields nine trigrams; seven of them occur in "Blueprint".
    assert_eq!(trigram_matches("Bluprint", "Blueprint"), 7);
    // Of the one-letter word's two padded trigrams, only the leading one
    // occurs in the longer word.
    assert_eq!(trigram_matches("a", "ab"), 1);
    assert_eq!(trigram_matches("", ""), 1);
}

#[test]
fn exact_match_scores_the_maximum() {
    for s in ["Blueprint", "Bp", "", "a b c"] {
        assert_eq!(score_of(s, s), 1.0f32);
        assert_eq!(trigram_matches(s, s), (s.chars().count() + 1) as u128);
    }
}

#[test]
fn selection_agrees_with_reference_crate() {
    let titles = vec![
        String::from("Blue circuit"),
        String::from("Blueprint"),
        String::from("Red circuit"),
        String::from("Roboport"),
    ];
    for query in ["Bluprint", "blue", "robo port", "zzz", "Red circuit"] {
        let refs: Vec<&str> = titles.iter().map(String::as_str).collect();
        let reference = fuzzy_search_best_n(query, &refs, 10);
        let expected = reference
            .first()
            .filter(|m| m.1 > 0.5f32)
            .map(|m| m.0.to_owned());
        assert_eq!(best_match(query, &titles), expected, "selection differs on {:?}", query);
    }
}
