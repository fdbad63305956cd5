use papyr::feed::{render_feed, xml};
use papyr::model::{Config, PostMeta};

#[test]
fn xml_escapes_specials() {
    assert_eq!(xml("a & b < c > d"), "a &amp; b &lt; c &gt; d");
    assert_eq!(xml("plain"), "plain");
}

fn post(slug: &str, title: &str, date: &str, summary: &str) -> PostMeta {
    PostMeta {
        slug: slug.into(),
        title: title.into(),
        date: date.into(),
        tags: vec![],
        summary: summary.into(),
    }
}

#[test]
fn feed_document_is_exact() {
    let config = Config {
        title: "T & U".into(),
        url: "https://example.com//".into(),
        description: "d".into(),
        favicons: vec![],
    };
    let out = render_feed(
        &config,
        &[post("a", "A <1>", "2026-06-24", "s"), post("b", "B", "2026-13-99", "")],
    );
    let expected = [
        "<?xml version=\"1.0\" encoding=\"UTF-8\"?>",
        "<rss version=\"2.0\">",
        "  <channel>",
        "    <title>T &amp; U</title>",
        "    <link>https://example.com</link>",
        "    <description>d</description>",
        "    <item>",
        "      <title>A &lt;1&gt;</title>",
        "      <link>https://example.com/posts/a.html</link>",
        "      <guid>https://example.com/posts/a.html</guid>",
        "      <pubDate>Wed, 24 Jun 2026 00:00:00 +0000</pubDate>",
        "      <description>s</description>",
        "    </item>",
        "    <item>",
        "      <title>B</title>",
        "      <link>https://example.com/posts/b.html</link>",
        "      <guid>https://example.com/posts/b.html</guid>",
        "      <pubDate>2026-13-99</pubDate>",
        "      <description></description>",
        "    </item>",
        "  </channel>",
        "</rss>",
        "",
    ]
    .join("\n");
    assert_eq!(out, expected);
}

#[test]
fn empty_feed_has_only_the_channel() {
    let config = Config {
        title: "T".into(),
        url: "u".into(),
        description: String::new(),
        favicons: vec![],
    };
    let out = render_feed(&config, &[]);
    assert!(!out.contains("<item>"));
    assert!(out.ends_with("    <description></description>\n  </channel>\n</rss>\n"));
}
