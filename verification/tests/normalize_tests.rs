use faq_resolver::normalize::{lookup_key, normalize_title};
use faq_resolver::util::escape_formatting;

#[test]
fn normalize_capitalizes_first_and_lowercases_rest() {
    assert_eq!(normalize_title("blueprint"), "Blueprint");
    assert_eq!(normalize_title("bLUEPRINT"), "Blueprint");
    assert_eq!(normalize_title("BLUEPRINT"), "Blueprint");
    assert_eq!(normalize_title("bp"), "Bp");
    assert_eq!(normalize_title(""), "");
    assert_eq!(normalize_title("x"), "X");
}

#[test]
fn normalize_leaves_non_ascii_letters_alone() {
    assert_eq!(normalize_title("1234"), "1234");
    assert_eq!(normalize_title("-abc"), "-abc");
}

#[test]
fn normalize_is_idempotent() {
    for raw in ["blueprint", "BLUEPRINT", "Mixed Case Words", "", "a", "1x2Y3z"] {
        let once = normalize_title(raw);
        let twice = normalize_title(once.as_str());
        assert_eq!(twice, once);
    }
}

#[test]
fn lookup_key_takes_segment_before_separator() {
    assert_eq!(lookup_key("blueprint; and more words", ';'), "Blueprint");
    assert_eq!(lookup_key("blueprint", ';'), "Blueprint");
    assert_eq!(lookup_key("; everything after", ';'), "");
}

#[test]
fn lookup_key_trims_whitespace() {
    assert_eq!(lookup_key("  blueprint  ", ';'), "Blueprint");
    assert_eq!(lookup_key("\tbp\n", ';'), "Bp");
    assert_eq!(lookup_key("   ", ';'), "");
}

#[test]
fn escape_formatting_escapes_markdown_and_mentions() {
    assert_eq!(
        escape_formatting(String::from("_a*b~c@d")),
        "\\_a\\*b\\~c@\u{200b}d"
    );
    assert_eq!(escape_formatting(String::from("plain text")), "plain text");
    assert_eq!(escape_formatting(String::from("")), "");
    assert_eq!(escape_formatting(String::from("@@")), "@\u{200b}@\u{200b}");
}
