use papyr::toc::{process, strip_tags, Toc};

#[test]
fn adds_ids_anchors_and_toc() {
    let html = "<main><h2>First Section</h2><p>x</p><h2>Second</h2><h3>Sub</h3></main>";
    let out = process(html, Toc::Open);
    assert!(out.contains(
        r##"<h2 id="first-section">First Section <a class="anchor" href="#first-section">#</a></h2>"##
    ));
    assert!(out.contains(r#"<details class="toc" open>"#));
    assert!(out.contains(r##"<a href="#second">Second</a>"##));
    assert!(out.contains(r##"<a href="#sub">Sub</a>"##));
    // TOC sits before the first heading
    assert!(out.find("toc").unwrap() < out.find(r#"id="first-section""#).unwrap());
}

#[test]
fn toc_is_opt_in_but_anchors_are_not() {
    // Same content, toc disabled: headings still get ids + anchors, no TOC.
    let html = "<main><h2>First Section</h2><h2>Second</h2></main>";
    let out = process(html, Toc::Off);
    assert!(out.contains(r#"id="first-section""#));
    assert!(out.contains(r##"<a class="anchor" href="#first-section">#</a>"##));
    assert!(!out.contains("toc"));
}

#[test]
fn no_toc_for_a_single_heading_but_still_anchored() {
    let out = process("<main><h2>Only</h2></main>", Toc::Open);
    assert!(out.contains(r#"id="only""#));
    assert!(!out.contains("toc"));
}

#[test]
fn toc_sits_after_meta_above_the_intro() {
    // With a post-meta line, the TOC goes at the top of the article — after
    // the meta, before the intro paragraph — not below the first paragraph.
    let html = r#"<article><h1 class="post-title">T</h1><p class="post-meta">d</p><p>intro</p><h2>One</h2><h2>Two</h2></article>"#;
    let out = process(html, Toc::Open);
    let toc = out.find("toc").unwrap();
    assert!(toc > out.find("post-meta").unwrap());
    assert!(toc < out.find("intro").unwrap());
}

#[test]
fn collapsed_starts_without_the_open_attribute() {
    let out = process("<main><h2>A</h2><h2>B</h2></main>", Toc::Collapsed);
    assert!(out.contains(r#"<details class="toc"><summary>"#));
    assert!(!out.contains(r#"class="toc" open"#));
}

#[test]
fn dedupes_repeated_ids() {
    let out = process("<main><h2>Dup</h2><h2>Dup</h2></main>", Toc::Open);
    assert!(out.contains(r#"id="dup""#));
    assert!(out.contains(r#"id="dup-1""#));
}

#[test]
fn strips_inline_tags_for_text_and_id() {
    assert_eq!(strip_tags("Some <code>code</code> here"), "Some code here");
    let out = process(
        "<main><h2>A <code>b</code> C</h2><h2>two</h2></main>",
        Toc::Open,
    );
    assert!(out.contains(r#"id="a-b-c""#));
}

#[test]
fn leading_h3_does_not_orphan_a_nested_list() {
    // A post that opens on h3 (before any h2) must not produce <ul><ul>.
    let out = process("<main><h3>Early</h3><h2>Main</h2></main>", Toc::Open);
    assert!(out.contains(r#"class="toc" open>"#));
    assert!(!out.contains("<ul><ul>"));
    assert!(out.contains(r##"<a href="#early">Early</a>"##));
}

#[test]
fn decodes_entities_for_id_and_toc_label() {
    let out = process("<main><h2>Tom &amp; Jerry</h2><h2>x</h2></main>", Toc::Open);
    assert!(out.contains(r#"id="tom-jerry""#)); // not "tom-amp-jerry"
    assert!(out.contains(r##"<a href="#tom-jerry">Tom &amp; Jerry</a>"##));
}

#[test]
fn toc_exact_output_with_nesting() {
    let out = process("<main><h2>A</h2><h3>B</h3><h3>C</h3><h2>D</h2></main>", Toc::Open);
    assert_eq!(
        out,
        "<main><details class=\"toc\" open><summary>Contents</summary><ul>\
<li><a href=\"#a\">A</a><ul><li><a href=\"#b\">B</a></li><li><a href=\"#c\">C</a></li></ul></li>\
<li><a href=\"#d\">D</a></li></ul></details>\
<h2 id=\"a\">A <a class=\"anchor\" href=\"#a\">#</a></h2>\
<h3 id=\"b\">B <a class=\"anchor\" href=\"#b\">#</a></h3>\
<h3 id=\"c\">C <a class=\"anchor\" href=\"#c\">#</a></h3>\
<h2 id=\"d\">D <a class=\"anchor\" href=\"#d\">#</a></h2></main>"
    );
}

#[test]
fn empty_headings_get_section_ids() {
    let out = process("<h2>!!</h2><h2><b></b></h2>", Toc::Off);
    assert!(out.contains(r#"<h2 id="section-1">!!"#));
    assert!(out.contains(r#"<h2 id="section-2"><b></b>"#));
}

#[test]
fn third_repeat_and_mixed_close_tags() {
    let out = process("<h2>x</h3><h3>x</h2><h2>x</h2>", Toc::Off);
    assert!(out.contains(r##"<h2 id="x">x <a class="anchor" href="#x">#</a></h2>"##));
    assert!(out.contains(r##"<h3 id="x-1">x <a class="anchor" href="#x-1">#</a></h3>"##));
    assert!(out.contains(r#"id="x-2""#));
}

#[test]
fn anchoring_agrees_with_the_regex_form() {
    let heading = regex::Regex::new(r"(?s)<h([23])>(.*?)</h[23]>").unwrap();
    for html in [
        "<h2>a</h2><h3>b\nc</h3>",
        "<h2>un</h2 closed<h3>x</h2>",
        "<h4>no</h4><h2><em>e</em></h2>",
    ] {
        let n = heading.find_iter(html).count();
        let out = process(html, Toc::Off);
        assert_eq!(out.matches("class=\"anchor\"").count(), n, "input: {html:?}");
    }
}

#[test]
fn strip_tags_agrees_with_the_regex_form() {
    let tag = regex::Regex::new(r"<[^>]*>").unwrap();
    for s in ["a <b>c</b> d", "  <i>x</i>  ", "1 < 2", "<open", "a<b>c<d"] {
        assert_eq!(strip_tags(s), tag.replace_all(s, "").trim(), "input: {s:?}");
    }
}

#[test]
fn toc_falls_back_to_the_first_heading_of_either_level() {
    let out = process("<h3>A</h3><h2>B</h2>", Toc::Open);
    assert!(out.starts_with(r#"<details class="toc" open>"#));
    let out = process("<p>x</p><h2>A</h2><h3>B</h3>", Toc::Open);
    assert!(out.starts_with(r#"<p>x</p><details class="toc" open>"#));
}

#[test]
fn toc_list_is_balanced_with_one_link_per_heading_in_order() {
    let out = process(
        "<main><h3>a</h3><h3>b</h3><h2>c</h2><h3>d</h3><h2>e</h2><h3>f</h3></main>",
        Toc::Open,
    );
    let start = out.find("<details").unwrap();
    let end = out.find("</details>").unwrap() + "</details>".len();
    let toc = &out[start..end];
    assert_eq!(toc.matches("<ul>").count(), toc.matches("</ul>").count());
    assert_eq!(toc.matches("<li>").count(), toc.matches("</li>").count());
    assert!(!toc.contains("<ul><ul>"));
    assert_eq!(toc.matches("<a href=").count(), 6);
    let mut at = 0;
    for id in ["a", "b", "c", "d", "e", "f"] {
        let link = format!("<a href=\"#{id}\">{id}</a>");
        let pos = toc[at..].find(&link).unwrap() + at;
        at = pos + link.len();
    }
    assert!(toc.ends_with("</ul></details>"));
}
