//! The decisions of a site build: where pages live, how a post page is
//! finished, the order of posts, the tag pages, and the small generated files.
//! Reading sources, compiling Typst and writing files stay with the caller.

use vstd::prelude::*;

use crate::code::{number_lines, numbered_from};
use crate::dates::{formatted, is_timestamp_text, local_year, now_timestamp, parse, reading, Instant};
use crate::feed::{base_url, push_xml, xml_escaped};
use crate::head::{meta, with_meta};
use crate::model::{Config, FrontMatter, PostMeta};
use crate::strings::{
    chars_of, contains, insert_at, lemma_contains_at, lemma_matches_middle, lemma_matches_widen,
    matches_at_exec, push_range, push_str, replace_first, replace_first_exec,
    string_of, trim_end_char_exec,
};
use crate::text::{decimal, decimal_chars, slug, slug_chars};
use crate::toc::{
    anchored, heading_spans, process, processed, toc_entries, toc_html, toc_position, Toc,
};

verus! {

/// The site URL without trailing slashes, as characters.
fn base_url_chars(config: &Config) -> (res: Vec<char>)
    ensures
        res@ == base_url(*config),
{
    let url = chars_of(config.url.as_str());
    let n: usize = trim_end_char_exec(&url, '/');
    let mut out: Vec<char> = Vec::new();
    push_range(&mut out, &url, 0, n);
    out
}

/// A page's absolute canonical URL from its site-relative output path:
/// `index.html` files are addressed by their directory.
pub open spec fn canonical(config: Config, rel: Seq<char>) -> Seq<char> {
    let url = base_url(config);
    if rel == "index.html"@ {
        url + "/"@
    } else if rel.len() >= 11 && rel.subrange(rel.len() - 11, rel.len() as int)
        == "/index.html"@ {
        url + "/"@ + rel.subrange(0, rel.len() - 11) + "/"@
    } else {
        url + "/"@ + rel
    }
}

/// Page's absolute canonical URL from its site-relative output path.
pub fn canonical_url(config: &Config, rel: &str) -> (res: String)
    ensures
        res@ == canonical(*config, rel@),
{
    proof {
        reveal_strlit("index.html");
        reveal_strlit("/index.html");
    }
    let r = chars_of(rel);
    let index = chars_of("index.html");
    let dir_index = chars_of("/index.html");
    let mut out = base_url_chars(config);
    push_str(&mut out, "/");
    if r.len() == 10 && matches_at_exec(&r, 0, &index) {
        assert(r@ == r@.subrange(0, 10));
    } else if r.len() >= 11 && matches_at_exec(&r, r.len() - 11, &dir_index) {
        push_range(&mut out, &r, 0, r.len() - 11);
        push_str(&mut out, "/");
    } else {
        if r.len() == 10 {
            assert(r@ != "index.html"@) by {
                assert(r@.subrange(0, 10) == r@);
            }
        }
        push_range(&mut out, &r, 0, r.len());
        assert(r@.subrange(0, r@.len() as int) == r@);
    }
    string_of(&out)
}

/// A page with its `<head>` metadata, for the page at `rel` in the output.
pub fn finalize_page(
    html: &str,
    config: &Config,
    rel: &str,
    description: &str,
    is_article: bool,
) -> (res: String)
    ensures
        res@ == with_meta(html@, *config, canonical(*config, rel@), description@, is_article),
{
    let canonical = canonical_url(config, rel);
    meta(html, config, canonical.as_str(), description, is_article)
}

/// The previous/next navigation block of a post page.
pub open spec fn post_nav(older: Option<PostMeta>, newer: Option<PostMeta>) -> Seq<char> {
    "<nav class=\"post-nav\">"@ + (match older {
        Some(o) => "<a class=\"prev\" href=\"/posts/"@ + o.slug@ + ".html\"><span>\u{2190} Older</span>"@
            + xml_escaped(o.title@) + "</a>"@,
        None => seq![],
    }) + (match newer {
        Some(n) => "<a class=\"next\" href=\"/posts/"@ + n.slug@ + ".html\"><span>Newer \u{2192}</span>"@
            + xml_escaped(n.title@) + "</a>"@,
        None => seq![],
    }) + "</nav>"@
}

/// A post page with prev (older) / next (newer) navigation before `</main>`
/// when it has a neighbor.
pub open spec fn with_post_nav(
    html: Seq<char>,
    older: Option<PostMeta>,
    newer: Option<PostMeta>,
) -> Seq<char> {
    if older is None && newer is None {
        html
    } else {
        replace_first(html, "</main>"@, post_nav(older, newer) + "</main>"@)
    }
}

/// Insert a prev (older) / next (newer) navigation block before `</main>`.
pub fn inject_post_nav(html: &str, older: Option<&PostMeta>, newer: Option<&PostMeta>) -> (res:
    String)
    ensures
        res@ == with_post_nav(
            html@,
            match older {
                Some(o) => Some(*o),
                None => None,
            },
            match newer {
                Some(n) => Some(*n),
                None => None,
            },
        ),
{
    let ghost o_spec = match older {
        Some(o) => Some(*o),
        None => None,
    };
    let ghost n_spec = match newer {
        Some(n) => Some(*n),
        None => None,
    };
    if older.is_none() && newer.is_none() {
        return string_of(&chars_of(html));
    }
    let mut nav: Vec<char> = Vec::new();
    push_str(&mut nav, "<nav class=\"post-nav\">");
    let ghost after_open = nav@;
    if let Some(o) = older {
        push_str(&mut nav, "<a class=\"prev\" href=\"/posts/");
        push_str(&mut nav, o.slug.as_str());
        push_str(&mut nav, ".html\"><span>\u{2190} Older</span>");
        push_xml(&mut nav, &chars_of(o.title.as_str()));
        push_str(&mut nav, "</a>");
    }
    let ghost after_older = nav@;
    assert(after_older =~= after_open + match o_spec {
        Some(o) => "<a class=\"prev\" href=\"/posts/"@ + o.slug@ + ".html\"><span>\u{2190} Older</span>"@
            + xml_escaped(o.title@) + "</a>"@,
        None => seq![],
    });
    if let Some(n) = newer {
        push_str(&mut nav, "<a class=\"next\" href=\"/posts/");
        push_str(&mut nav, n.slug.as_str());
        push_str(&mut nav, ".html\"><span>Newer \u{2192}</span>");
        push_xml(&mut nav, &chars_of(n.title.as_str()));
        push_str(&mut nav, "</a>");
    }
    push_str(&mut nav, "</nav>");
    push_str(&mut nav, "</main>");
    assert(nav@ =~= post_nav(o_spec, n_spec) + "</main>"@);
    let out = replace_first_exec(&chars_of(html), &chars_of("</main>"), &nav);
    string_of(&out)
}

/// The neighbors of the `i`-th of `n` posts listed newest first: the older
/// one (listed next) and the newer one (listed before it).
pub fn neighbors(n: usize, i: usize) -> (res: (Option<usize>, Option<usize>))
    requires
        i < n,
    ensures
        res.0 == (if i + 1 < n {
            Some((i + 1) as usize)
        } else {
            None
        }),
        res.1 == (if i > 0 {
            Some((i - 1) as usize)
        } else {
            None
        }),
{
    let older = if i + 1 < n {
        Some(i + 1)
    } else {
        None
    };
    let newer = if i > 0 {
        Some(i - 1)
    } else {
        None
    };
    (older, newer)
}

/// The table-of-contents setting a post's frontmatter asks for.
pub open spec fn toc_setting(toc: bool, collapsed: bool) -> Toc {
    if !toc {
        Toc::Off
    } else if collapsed {
        Toc::Collapsed
    } else {
        Toc::Open
    }
}

/// The table-of-contents setting of a post.
pub fn toc_mode(fm: &FrontMatter) -> (res: Toc)
    ensures
        res == toc_setting(fm.toc, fm.collapsed),
{
    match (fm.toc, fm.collapsed) {
        (false, _) => Toc::Off,
        (true, false) => Toc::Open,
        (true, true) => Toc::Collapsed,
    }
}

/// A compiled post page, finished: heading anchors (and the TOC), line
/// numbers when asked for, and the prev/next navigation.
pub open spec fn finished_post(
    html: Seq<char>,
    toc: Toc,
    line_numbers: bool,
    older: Option<PostMeta>,
    newer: Option<PostMeta>,
) -> Seq<char> {
    let h = processed(html, toc);
    let h = if line_numbers {
        numbered_from(h, 0)
    } else {
        h
    };
    with_post_nav(h, older, newer)
}

/// Finish a compiled post page: anchors and TOC, line numbers, navigation.
pub fn finish_post(
    html: &str,
    toc: Toc,
    line_numbers: bool,
    older: Option<&PostMeta>,
    newer: Option<&PostMeta>,
) -> (res: String)
    ensures
        res@ == finished_post(
            html@,
            toc,
            line_numbers,
            match older {
                Some(o) => Some(*o),
                None => None,
            },
            match newer {
                Some(n) => Some(*n),
                None => None,
            },
        ),
{
    let h = process(html, toc);
    let h = if line_numbers {
        number_lines(h.as_str())
    } else {
        h
    };
    inject_post_nav(h.as_str(), older, newer)
}

/// The `sitemap.xml` document listing the pages at `rels`, in that order.
pub open spec fn sitemap_urls(config: Config, rels: Seq<String>) -> Seq<char>
    decreases rels.len(),
{
    if rels.len() == 0 {
        seq![]
    } else {
        sitemap_urls(config, rels.drop_last()) + "  <url><loc>"@ + xml_escaped(
            canonical(config, rels.last()@),
        ) + "</loc></url>\n"@
    }
}

/// The `sitemap.xml` document.
pub open spec fn sitemap_document(config: Config, rels: Seq<String>) -> Seq<char> {
    "<?xml version=\"1.0\" encoding=\"UTF-8\"?>\n"@
        + "<urlset xmlns=\"http://www.sitemaps.org/schemas/sitemap/0.9\">\n"@ + sitemap_urls(
        config,
        rels,
    ) + "</urlset>\n"@
}

/// `sitemap.xml` listing every output page (`rels` are site-relative paths,
/// in the order they are listed).
pub fn sitemap(config: &Config, rels: &[String]) -> (res: String)
    ensures
        res@ == sitemap_document(*config, rels@),
{
    let mut s: Vec<char> = Vec::new();
    push_str(&mut s, "<?xml version=\"1.0\" encoding=\"UTF-8\"?>\n");
    push_str(&mut s, "<urlset xmlns=\"http://www.sitemaps.org/schemas/sitemap/0.9\">\n");
    let ghost head = s@;
    let mut i: usize = 0;
    while i < rels.len()
        invariant
            i <= rels@.len(),
            s@ == head + sitemap_urls(*config, rels@.take(i as int)),
        decreases rels.len() - i,
    {
        let loc = canonical_url(config, rels[i].as_str());
        assert(rels@.take(i + 1).drop_last() == rels@.take(i as int));
        push_str(&mut s, "  <url><loc>");
        push_xml(&mut s, &chars_of(loc.as_str()));
        push_str(&mut s, "</loc></url>\n");
        assert(s@ =~= head + sitemap_urls(*config, rels@.take(i + 1)));
        i = i + 1;
    }
    assert(rels@.take(rels@.len() as int) == rels@);
    push_str(&mut s, "</urlset>\n");
    assert(s@ =~= sitemap_document(*config, rels@));
    string_of(&s)
}

/// `robots.txt` pointing at the sitemap.
pub fn robots(config: &Config) -> (res: String)
    ensures
        res@ == "User-agent: *\nAllow: /\n\nSitemap: "@ + base_url(*config) + "/sitemap.xml\n"@,
{
    let mut s: Vec<char> = Vec::new();
    push_str(&mut s, "User-agent: *\nAllow: /\n\nSitemap: ");
    let url = base_url_chars(config);
    push_range(&mut s, &url, 0, url.len());
    push_str(&mut s, "/sitemap.xml\n");
    assert(url@.subrange(0, url@.len() as int) == url@);
    string_of(&s)
}

/// The `<head>` favicon `<link>` tags for whichever icons exist in `assets/`:
/// SVG, then ICO, then the Apple touch icon.
pub open spec fn favicon_tags(svg: bool, ico: bool, apple: bool) -> Seq<Seq<char>> {
    (if svg {
        seq!["<link rel=\"icon\" type=\"image/svg+xml\" href=\"/favicon.svg\">"@]
    } else {
        seq![]
    }) + (if ico {
        seq!["<link rel=\"icon\" href=\"/favicon.ico\" sizes=\"any\">"@]
    } else {
        seq![]
    }) + (if apple {
        seq!["<link rel=\"apple-touch-icon\" href=\"/apple-touch-icon.png\">"@]
    } else {
        seq![]
    })
}

/// The favicon `<link>` tags, given which icon files exist.
pub fn favicon_links(svg: bool, ico: bool, apple: bool) -> (res: Vec<String>)
    ensures
        res@.map_values(|l: String| l@) == favicon_tags(svg, ico, apple),
{
    let mut links: Vec<String> = Vec::new();
    if svg {
        links.push(string_of(&chars_of("<link rel=\"icon\" type=\"image/svg+xml\" href=\"/favicon.svg\">")));
    }
    let ghost a = links@.map_values(|l: String| l@);
    if ico {
        links.push(string_of(&chars_of("<link rel=\"icon\" href=\"/favicon.ico\" sizes=\"any\">")));
    }
    let ghost b = links@.map_values(|l: String| l@);
    if apple {
        links.push(string_of(&chars_of("<link rel=\"apple-touch-icon\" href=\"/apple-touch-icon.png\">")));
    }
    assert(links@.map_values(|l: String| l@) =~= favicon_tags(svg, ico, apple));
    links
}

/// The warning for a source whose file stem is not already its slug (the stem
/// becomes the URL verbatim).
pub open spec fn filename_warning_text(rel: Seq<char>, stem: Seq<char>) -> Option<Seq<char>> {
    if stem == slug(stem) {
        None
    } else {
        Some("\u{26a0} "@ + rel + ": filename isn't URL-safe; consider renaming to \""@ + slug(stem)
            + "\""@)
    }
}

/// Nudge the author if a source filename isn't already URL-safe: the file
/// stem becomes the slug verbatim (unlike tags, which are slugified), so a
/// name with spaces or uppercase yields a fragile URL.
pub fn filename_warning(rel: &str, stem: &str) -> (res: Option<String>)
    ensures
        res matches Some(w) ==> filename_warning_text(rel@, stem@) == Some(w@),
        res is None ==> filename_warning_text(rel@, stem@) is None,
{
    let st = chars_of(stem);
    let safe = slug_chars(&st);
    let mut same = st.len() == safe.len();
    let mut i: usize = 0;
    while same && i < st.len()
        invariant
            i <= st@.len(),
            same ==> st@.len() == safe@.len() && forall|m: int| 0 <= m < i ==> st@[m] == safe@[m],
            !same ==> st@ != safe@,
        decreases st.len() - i,
    {
        if st[i] != safe[i] {
            same = false;
        }
        i = i + 1;
    }
    if same {
        assert(st@ =~= safe@);
        return None;
    }
    let mut w: Vec<char> = Vec::new();
    push_str(&mut w, "\u{26a0} ");
    push_str(&mut w, rel);
    push_str(&mut w, ": filename isn't URL-safe; consider renaming to \"");
    push_range(&mut w, &safe, 0, safe.len());
    push_str(&mut w, "\"");
    assert(safe@.subrange(0, safe@.len() as int) == safe@);
    Some(string_of(&w))
}

/// The warning for a post whose `date` does not read as a date or timestamp.
pub open spec fn date_warning_text(rel: Seq<char>, date: Seq<char>) -> Option<Seq<char>> {
    if reading(date) is None {
        Some("\u{26a0} "@ + rel + ": \""@ + date + "\" is not a valid date or timestamp"@)
    } else {
        None
    }
}

/// A warning when a post's `date` isn't a valid date or timestamp (the build
/// goes on; such posts sort last).
pub fn date_warning(rel: &str, date: &str) -> (res: Option<String>)
    ensures
        res matches Some(w) ==> date_warning_text(rel@, date@) == Some(w@),
        res is None ==> date_warning_text(rel@, date@) is None,
{
    if parse(date).is_some() {
        return None;
    }
    let mut w: Vec<char> = Vec::new();
    push_str(&mut w, "\u{26a0} ");
    push_str(&mut w, rel);
    push_str(&mut w, ": \"");
    push_str(&mut w, date);
    push_str(&mut w, "\" is not a valid date or timestamp");
    Some(string_of(&w))
}

/// The progress line after compiling the posts.
pub fn post_count_line(n: usize) -> (res: String)
    ensures
        res@ == "  "@ + decimal(n as nat) + (if n == 1 {
            " post"@
        } else {
            " posts"@
        }),
{
    let mut s: Vec<char> = Vec::new();
    push_str(&mut s, "  ");
    let num = decimal_chars(n);
    push_range(&mut s, &num, 0, num.len());
    assert(num@.subrange(0, num@.len() as int) == num@);
    if n == 1 {
        push_str(&mut s, " post");
    } else {
        push_str(&mut s, " posts");
    }
    string_of(&s)
}

/// The error that fails a `--strict` build with broken internal links.
pub open spec fn strict_failure_text(strict: bool, broken: nat) -> Option<Seq<char>> {
    if strict && broken > 0 {
        Some(decimal(broken) + " broken internal link(s); failing due to --strict"@)
    } else {
        None
    }
}

/// With `strict`, broken internal links fail the build (before the new
/// output is published); otherwise they are only reported.
pub fn strict_failure(strict: bool, broken: usize) -> (res: Option<String>)
    ensures
        res matches Some(e) ==> strict_failure_text(strict, broken as nat) == Some(e@),
        res is None ==> strict_failure_text(strict, broken as nat) is None,
{
    if strict && broken > 0 {
        let mut s = decimal_chars(broken);
        push_str(&mut s, " broken internal link(s); failing due to --strict");
        Some(string_of(&s))
    } else {
        None
    }
}

/// The source of a new post scaffolded by `papyr new`.
pub open spec fn new_post_text(slug: Seq<char>, timestamp: Seq<char>) -> Seq<char> {
    "#import \"/lib/template.typ\": post\n#show: post.with(\n  title: \""@ + slug
        + "\",\n  date: \""@ + timestamp
        + "\",\n  tags: (),\n  summary: \"\",\n)\n\nWrite your post here.\n"@
}

/// The source of a new post titled `slug`, stamped with `timestamp`.
pub fn new_post_source(slug: &str, timestamp: &str) -> (res: String)
    ensures
        res@ == new_post_text(slug@, timestamp@),
{
    let mut s: Vec<char> = Vec::new();
    push_str(&mut s, "#import \"/lib/template.typ\": post\n#show: post.with(\n  title: \"");
    push_str(&mut s, slug);
    push_str(&mut s, "\",\n  date: \"");
    push_str(&mut s, timestamp);
    push_str(&mut s, "\",\n  tags: (),\n  summary: \"\",\n)\n\nWrite your post here.\n");
    string_of(&s)
}

/// The source of a new post, stamped with the current local time as a full
/// timestamp with offset, so that posts written on the same day sort by time.
pub fn new_post(slug: &str) -> (res: String)
    ensures
        exists|t: Instant|
            t.wf() && res@ == new_post_text(slug@, formatted(t, "%Y-%m-%dT%H:%M:%S%:z"@)) && (0
                <= local_year(t) <= 9999 ==> is_timestamp_text(
                formatted(t, "%Y-%m-%dT%H:%M:%S%:z"@),
                local_year(t) as int,
            )),
{
    let stamp = now_timestamp();
    new_post_source(slug, stamp.as_str())
}


/// A post without line numbers or neighbours is finished exactly as
/// `process` leaves it under the post's own TOC setting. So a post that asks
/// for a table of contents (open or collapsed) and has two or more headings
/// and a place for it gets its `<details class="toc"` element.
pub proof fn lemma_finished_post_keeps_toc(html: Seq<char>, toc: Toc)
    ensures
        finished_post(html, toc, false, None, None) == processed(html, toc),
        toc.shown() is Some && heading_spans(html, 0).len() >= 2 && toc_position(anchored(html))
            is Some ==> contains(
            finished_post(html, toc, false, None, None),
            "<details class=\"toc\""@,
        ),
{
    if toc.shown() is Some && heading_spans(html, 0).len() >= 2 && toc_position(anchored(html))
        is Some {
        reveal_strlit("<details class=\"toc\"");
        reveal_strlit("<details class=\"toc\" open><summary>Contents</summary><ul>");
        reveal_strlit("<details class=\"toc\"><summary>Contents</summary><ul>");
        reveal_strlit(" open><summary>Contents</summary><ul>");
        reveal_strlit("><summary>Contents</summary><ul>");
        let open = toc.shown()->0;
        let a = anchored(html);
        let pos = toc_position(a)->0;
        let t = toc_html(toc_entries(html), open);
        let pat = "<details class=\"toc\""@;
        let head = if open {
            "<details class=\"toc\" open><summary>Contents</summary><ul>"@
        } else {
            "<details class=\"toc\"><summary>Contents</summary><ul>"@
        };
        let head_rest = if open {
            " open><summary>Contents</summary><ul>"@
        } else {
            "><summary>Contents</summary><ul>"@
        };
        assert(head =~= pat + head_rest);
        let rest = t.subrange(head.len() as int, t.len() as int);
        assert(t =~= head + rest);
        assert(t =~= seq![] + pat + (head_rest + rest));
        lemma_matches_middle(seq![], pat, head_rest + rest);
        let r = processed(html, toc);
        assert(r == insert_at(a, pos, t));
        let before = a.subrange(0, pos);
        let after = a.subrange(pos, a.len() as int);
        lemma_matches_widen(t, 0, pat, before, after);
        lemma_contains_at(before + t + after, before.len() as int, pat);
    }
}

} // verus!
