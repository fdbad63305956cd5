use papyr::text::{decode_entities, slugify};

#[test]
fn decode_entities_reverses_typst_escaping() {
    assert_eq!(
        decode_entities("Rust &amp; You &lt;ok&gt;"),
        "Rust & You <ok>"
    );
    assert_eq!(decode_entities("plain"), "plain");
    // a literal "&lt;" in the source becomes "&amp;lt;" → decodes to "&lt;"
    assert_eq!(decode_entities("&amp;lt;"), "&lt;");
}

#[test]
fn slugify_matches_typst_rules() {
    assert_eq!(slugify("Machine Learning"), "machine-learning");
    assert_eq!(slugify("C++"), "c");
    assert_eq!(slugify("a/b"), "a-b");
    assert_eq!(slugify("  Hello,  World!  "), "hello-world");
    assert_eq!(slugify("café"), "caf");
    assert_eq!(slugify("Rust 2024"), "rust-2024");
    assert_eq!(slugify("--x--"), "x");
    assert_eq!(slugify("!!!"), "");
}

#[test]
fn slugify_is_idempotent() {
    for s in ["Machine Learning", "C++", "  Hello,  World!  ", "a--b", "x"] {
        let once = slugify(s);
        assert_eq!(slugify(&once), once);
        assert!(!once.starts_with('-') && !once.ends_with('-') && !once.contains("--"));
    }
}

#[test]
fn decode_entities_quotes_and_apostrophes() {
    assert_eq!(decode_entities("&quot;a&#39;b&#x27;"), "\"a'b'");
}

#[test]
fn one_dash_exactly_where_something_separates_kept_characters() {
    assert_eq!(slugify("a--b c"), "a-b-c");
    assert_eq!(slugify("ab"), "ab");
    assert_eq!(slugify("a\u{e9}b"), "a-b");
    assert_eq!(slugify("a \t\n b"), "a-b");
    assert_eq!(slugify("-a-"), "a");
}
