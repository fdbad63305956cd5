use papyr::links::{internal_hrefs, link_target};

#[test]
fn internal_hrefs_keeps_only_site_absolute() {
    let html = r#"<a href="/posts/x.html">x</a><a href="https://e.com">e</a><a href="/t/#f">f</a><a href="//cdn/a">c</a>"#;
    assert_eq!(internal_hrefs(html), vec!["/posts/x.html", "/t/"]);
}

#[test]
fn internal_hrefs_drops_queries_and_unterminated_values() {
    assert_eq!(internal_hrefs(r#"href="/a?x=1#y" href="/b"#), vec!["/a"]);
    assert_eq!(internal_hrefs(r#"href="/""#), vec!["/"]);
    assert!(internal_hrefs("no links").is_empty());
}

#[test]
fn link_targets() {
    assert_eq!(link_target("/posts/x.html"), "posts/x.html");
    assert_eq!(link_target("/"), "index.html");
    assert_eq!(link_target("/tags/"), "tags/index.html");
    assert_eq!(link_target("//x"), "x");
}

#[test]
fn internal_hrefs_agree_with_the_regex_form() {
    let re = regex::Regex::new(r#"href="(/[^"]*)""#).unwrap();
    for html in [
        r#"<a href="/a">a</a><a href="/b#c">b</a><a href="//x">x</a>"#,
        r#"href="/unterminated"#,
        r#"href="/a"href="/b?q""#,
        r#"href="/x"y" href="/""#,
    ] {
        let expected: Vec<String> = re
            .captures_iter(html)
            .filter_map(|c| {
                let raw = &c[1];
                if raw.starts_with("//") {
                    return None;
                }
                Some(raw.split(['#', '?']).next().unwrap_or(raw).to_string())
            })
            .collect();
        assert_eq!(internal_hrefs(html), expected, "input: {html:?}");
    }
}
