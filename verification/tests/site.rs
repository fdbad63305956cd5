use papyr::model::{Config, FrontMatter, PostMeta};
use papyr::site::{
    canonical_url, date_warning, favicon_links, filename_warning, finalize_page, finish_post,
    inject_post_nav, new_post, new_post_source, post_count_line, robots, sitemap, strict_failure,
    toc_mode,
};
use papyr::toc::Toc;

fn cfg(url: &str) -> Config {
    Config {
        title: "Blog".into(),
        url: url.into(),
        description: "desc".into(),
        favicons: vec![],
    }
}

fn meta(slug: &str, title: &str) -> PostMeta {
    PostMeta {
        slug: slug.into(),
        title: title.into(),
        date: "2026-01-01".into(),
        tags: vec![],
        summary: String::new(),
    }
}

fn fm(toc: bool, collapsed: bool) -> FrontMatter {
    FrontMatter {
        title: "T".into(),
        date: "2026-01-01".into(),
        tags: vec!["a".into()],
        summary: "s".into(),
        toc,
        collapsed,
        line_numbers: false,
    }
}

#[test]
fn canonical_urls_address_directories() {
    let c = cfg("https://example.com/");
    assert_eq!(canonical_url(&c, "index.html"), "https://example.com/");
    assert_eq!(canonical_url(&c, "tags/index.html"), "https://example.com/tags/");
    assert_eq!(canonical_url(&c, "posts/x.html"), "https://example.com/posts/x.html");
    assert_eq!(canonical_url(&c, "about.html"), "https://example.com/about.html");
}

#[test]
fn post_nav_links_older_and_newer() {
    let older = meta("old", "Old & gray");
    let newer = meta("new", "New");
    let out = inject_post_nav("<main>x</main>", Some(&older), Some(&newer));
    assert_eq!(
        out,
        "<main>x<nav class=\"post-nav\"><a class=\"prev\" href=\"/posts/old.html\"><span>← Older</span>Old &amp; gray</a><a class=\"next\" href=\"/posts/new.html\"><span>Newer →</span>New</a></nav></main>"
    );
    assert_eq!(inject_post_nav("<main>x</main>", None, None), "<main>x</main>");
    assert_eq!(
        inject_post_nav("<main>x</main>", None, Some(&newer)),
        "<main>x<nav class=\"post-nav\"><a class=\"next\" href=\"/posts/new.html\"><span>Newer →</span>New</a></nav></main>"
    );
}

#[test]
fn toc_modes_follow_the_frontmatter() {
    assert!(matches!(toc_mode(&fm(false, true)), Toc::Off));
    assert!(matches!(toc_mode(&fm(true, false)), Toc::Open));
    assert!(matches!(toc_mode(&fm(true, true)), Toc::Collapsed));
}

#[test]
fn finished_post_has_anchors_numbers_and_nav() {
    let older = meta("o", "O");
    let out = finish_post(
        "<main><h2>A</h2><pre><code>x\ny</code></pre></main>",
        Toc::Off,
        true,
        Some(&older),
        None,
    );
    assert!(out.contains(r##"<h2 id="a">A <a class="anchor" href="#a">#</a></h2>"##));
    assert!(out.contains("<pre class=\"numbered\"><code><span class=\"line\">x</span>\n<span class=\"line\">y</span></code></pre>"));
    assert!(out.ends_with("<nav class=\"post-nav\"><a class=\"prev\" href=\"/posts/o.html\"><span>← Older</span>O</a></nav></main>"));
}

#[test]
fn finalized_pages_get_canonical_metadata() {
    let c = cfg("https://example.com");
    let out = finalize_page("<head><title>T</title></head>", &c, "tags/index.html", "d", false);
    assert!(out.contains(r#"<link rel="canonical" href="https://example.com/tags/">"#));
    assert!(out.contains(r#"og:type" content="website""#));
}

#[test]
fn sitemap_and_robots() {
    let c = cfg("https://e.com/");
    let rels = vec!["index.html".to_string(), "posts/a&b.html".to_string()];
    assert_eq!(
        sitemap(&c, &rels),
        "<?xml version=\"1.0\" encoding=\"UTF-8\"?>\n<urlset xmlns=\"http://www.sitemaps.org/schemas/sitemap/0.9\">\n  <url><loc>https://e.com/</loc></url>\n  <url><loc>https://e.com/posts/a&amp;b.html</loc></url>\n</urlset>\n"
    );
    assert_eq!(robots(&c), "User-agent: *\nAllow: /\n\nSitemap: https://e.com/sitemap.xml\n");
}

#[test]
fn favicons_in_preference_order() {
    assert_eq!(
        favicon_links(true, true, true),
        vec![
            r#"<link rel="icon" type="image/svg+xml" href="/favicon.svg">"#.to_string(),
            r#"<link rel="icon" href="/favicon.ico" sizes="any">"#.to_string(),
            r#"<link rel="apple-touch-icon" href="/apple-touch-icon.png">"#.to_string(),
        ]
    );
    assert_eq!(favicon_links(false, true, false).len(), 1);
    assert!(favicon_links(false, false, false).is_empty());
}

#[test]
fn warnings_for_unsafe_names_and_bad_dates() {
    assert_eq!(filename_warning("posts/ok-name.typ", "ok-name"), None);
    assert_eq!(
        filename_warning("posts/My Post.typ", "My Post").as_deref(),
        Some("⚠ posts/My Post.typ: filename isn't URL-safe; consider renaming to \"my-post\"")
    );
    assert_eq!(date_warning("posts/a.typ", "2026-01-01"), None);
    assert_eq!(
        date_warning("posts/a.typ", "2026-13-99").as_deref(),
        Some("⚠ posts/a.typ: \"2026-13-99\" is not a valid date or timestamp")
    );
}

#[test]
fn count_line_and_strict_failure() {
    assert_eq!(post_count_line(1), "  1 post");
    assert_eq!(post_count_line(0), "  0 posts");
    assert_eq!(post_count_line(12), "  12 posts");
    assert_eq!(strict_failure(false, 3), None);
    assert_eq!(strict_failure(true, 0), None);
    assert_eq!(
        strict_failure(true, 3).as_deref(),
        Some("3 broken internal link(s); failing due to --strict")
    );
}

#[test]
fn new_post_sources() {
    assert_eq!(
        new_post_source("my-post", "2026-06-24T15:30:00+02:00"),
        "#import \"/lib/template.typ\": post\n#show: post.with(\n  title: \"my-post\",\n  date: \"2026-06-24T15:30:00+02:00\",\n  tags: (),\n  summary: \"\",\n)\n\nWrite your post here.\n"
    );
    let fresh = new_post("x");
    let date_line = fresh.lines().find(|l| l.starts_with("  date: ")).unwrap();
    let stamp = date_line.trim_start_matches("  date: \"").trim_end_matches("\",");
    assert!(papyr::dates::parse(stamp).is_some());
    assert_eq!(stamp.len(), 25);
    assert_eq!(&stamp[10..11], "T");
    assert_eq!(&stamp[..4], &papyr::dates::today()[..4]);
}

#[test]
fn frontmatter_to_listing_metadata() {
    let p = PostMeta::from_frontmatter("slug".into(), fm(true, false));
    assert_eq!(p.slug, "slug");
    assert_eq!(p.title, "T");
    assert_eq!(p.date, "2026-01-01");
    assert_eq!(p.tags, vec!["a".to_string()]);
    assert_eq!(p.summary, "s");
}

#[test]
fn starter_post_fills_every_date() {
    assert_eq!(
        papyr::scaffold::starter_post("date: \"{date}\" / {date}", "2026-01-02"),
        "date: \"2026-01-02\" / 2026-01-02"
    );
}

#[test]
fn neighbors_in_newest_first_order() {
    assert_eq!(papyr::site::neighbors(3, 0), (Some(1), None));
    assert_eq!(papyr::site::neighbors(3, 1), (Some(2), Some(0)));
    assert_eq!(papyr::site::neighbors(3, 2), (None, Some(1)));
    assert_eq!(papyr::site::neighbors(1, 0), (None, None));
}
