use papyr::head::{attr, extract_title, meta};
use papyr::model::Config;
use papyr::text::decode_entities;

fn cfg() -> Config {
    Config {
        title: "My \"Blog\"".into(),
        url: "https://example.com".into(),
        description: "desc".into(),
        favicons: vec![],
    }
}

#[test]
fn injects_before_head_close_with_escaping() {
    let html = "<head>\n    <title>Hello — My Blog</title>\n  </head><body></body>";
    let out = meta(
        html,
        &cfg(),
        "https://example.com/posts/x.html",
        "A & B",
        true,
    );
    assert!(out.contains(r#"<meta property="og:type" content="article">"#));
    assert!(out.contains(r#"content="A &amp; B""#));
    assert!(out.contains(r#"og:title" content="Hello — My Blog""#));
    assert!(out.contains(r#"og:site_name" content="My &quot;Blog&quot;""#));
    assert!(out.contains(r#"href="https://example.com/posts/x.html""#));
    assert!(out.contains(r#"rel="alternate" type="application/rss+xml""#));
    // exactly one </head>, and our block precedes it
    assert_eq!(out.matches("</head>").count(), 1);
    assert!(out.find("og:url").unwrap() < out.find("</head>").unwrap());
}

#[test]
fn og_title_is_not_double_escaped() {
    // Typst emits an escaped <title>; og:title must escape exactly once.
    let html = "<head><title>Rust &amp; You &lt;ok&gt;</title></head>";
    let out = meta(html, &cfg(), "https://example.com/", "d", true);
    assert!(out.contains(r#"og:title" content="Rust &amp; You &lt;ok&gt;""#));
    assert!(!out.contains("&amp;amp;"));
}

#[test]
fn website_type_for_non_articles() {
    let html = "<head><title>T</title></head>";
    let out = meta(html, &cfg(), "https://example.com/", "d", false);
    assert!(out.contains(r#"og:type" content="website""#));
}

#[test]
fn site_title_stands_in_for_a_missing_title() {
    let out = meta("<head></head>", &cfg(), "c", "d", false);
    assert!(out.contains(r#"og:title" content="My &quot;Blog&quot;""#));
    assert!(out.starts_with("<head>    <meta name=\"description\" content=\"d\">\n"));
    assert!(out.ends_with("href=\"/feed.xml\">\n  </head>"));
}

#[test]
fn page_without_head_is_unchanged() {
    assert_eq!(meta("<p>x</p>", &cfg(), "c", "d", true), "<p>x</p>");
}

#[test]
fn title_extraction() {
    assert_eq!(extract_title("<title>a</title><title>b</title>").as_deref(), Some("a"));
    assert_eq!(extract_title("<title>\nx\n</title>").as_deref(), Some("\nx\n"));
    assert_eq!(extract_title("<title>open"), None);
    assert_eq!(extract_title("none"), None);
}

#[test]
fn attr_escapes_quotes_too_and_decoding_undoes_it() {
    let s = "a&b<c>d\"e &lt; '";
    let escaped = attr(s);
    assert_eq!(escaped, "a&amp;b&lt;c&gt;d&quot;e &amp;lt; '");
    assert_eq!(decode_entities(&escaped), s);
    assert_eq!(decode_entities(&papyr::feed::xml(s)), s);
}

#[test]
fn title_agrees_with_the_regex_form() {
    let re = regex::Regex::new(r"(?s)<title>(.*?)</title>").unwrap();
    for html in ["<title>a</title>", "<title><title>b</title>", "x<title>\n</title></title>", "<title>"] {
        let expected = re.captures(html).map(|c| c[1].to_string());
        assert_eq!(extract_title(html), expected, "input: {html:?}");
    }
}

#[test]
fn favicon_links_go_into_head() {
    let mut c = cfg();
    c.favicons = vec![
        r#"<link rel="icon" type="image/svg+xml" href="/favicon.svg">"#.to_string(),
        r#"<link rel="icon" href="/favicon.ico" sizes="any">"#.to_string(),
    ];
    let out = meta("<head><title>T</title></head><body></body>", &c, "c", "d", false);
    assert!(out.ends_with(
        "href=\"/feed.xml\">\n    <link rel=\"icon\" type=\"image/svg+xml\" href=\"/favicon.svg\">\n    <link rel=\"icon\" href=\"/favicon.ico\" sizes=\"any\">\n  </head><body></body>"
    ));
    assert_eq!(out.matches("</head>").count(), 1);
}

#[test]
fn meta_keeps_the_close_tags_of_the_page() {
    let mut c = cfg();
    c.favicons = vec![r#"<link rel="icon" href="/favicon.ico" sizes="any">"#.into()];
    let one = "<head><title>x</title></head><body></body>";
    let out = meta(one, &c, "</head>", "</head>", false);
    assert_eq!(out.matches("</head>").count(), 1);
    assert!(out.ends_with("  </head><body></body>"));
    let two = "<head></head><pre></head></pre>";
    let out = meta(two, &c, "u", "d", false);
    assert_eq!(out.matches("</head>").count(), 2);
    assert!(out.ends_with("  </head><pre></head></pre>"));
    assert_eq!(meta("<p>none</p>", &c, "u", "d", true), "<p>none</p>");
}
