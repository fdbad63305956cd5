//! Per-page `<head>` metadata: description, canonical URL, OpenGraph/Twitter
//! cards, theme-color, and RSS feed autodiscovery. Injected before `</head>`
//! (the stylesheet `<link>` is already added by `render`).

use vstd::prelude::*;

use crate::model::Config;
use crate::strings::{
    chars_of, contains, find, find_from, matches_at, find_from_exec, lemma_find_from,
    lemma_contains_at, lemma_find_from_is, lemma_matches_middle, lemma_matches_widen, push_range,
    push_str, replace_first, replace_first_exec, string_of,
};
use crate::text::{decode_chars, decoded};

verus! {

/// The attribute escape of one character: `&`, `<`, `>` and `"` become
/// entities.
pub open spec fn attr_char(c: char) -> Seq<char> {
    if c == '&' {
        seq!['&', 'a', 'm', 'p', ';']
    } else if c == '<' {
        seq!['&', 'l', 't', ';']
    } else if c == '>' {
        seq!['&', 'g', 't', ';']
    } else if c == '"' {
        seq!['&', 'q', 'u', 'o', 't', ';']
    } else {
        seq![c]
    }
}

/// `s` escaped for an HTML attribute value.
pub open spec fn attr_escaped(s: Seq<char>) -> Seq<char>
    decreases s.len(),
{
    if s.len() == 0 {
        seq![]
    } else {
        attr_escaped(s.drop_last()) + attr_char(s.last())
    }
}

/// Appends the attribute escape of `s` to `out`.
pub fn push_attr(out: &mut Vec<char>, s: &[char])
    ensures
        final(out)@ == old(out)@ + attr_escaped(s@),
{
    let ghost start = out@;
    let mut i: usize = 0;
    while i < s.len()
        invariant
            i <= s@.len(),
            out@ == start + attr_escaped(s@.take(i as int)),
        decreases s.len() - i,
    {
        let c = s[i];
        assert(s@.take(i + 1).drop_last() == s@.take(i as int));
        if c == '&' {
            out.push('&');
            out.push('a');
            out.push('m');
            out.push('p');
            out.push(';');
        } else if c == '<' {
            out.push('&');
            out.push('l');
            out.push('t');
            out.push(';');
        } else if c == '>' {
            out.push('&');
            out.push('g');
            out.push('t');
            out.push(';');
        } else if c == '"' {
            out.push('&');
            out.push('q');
            out.push('u');
            out.push('o');
            out.push('t');
            out.push(';');
        } else {
            out.push(c);
        }
        i = i + 1;
    }
    assert(s@.take(s@.len() as int) == s@);
}

/// Escape a string for use in an HTML attribute value.
pub fn attr(s: &str) -> (res: String)
    ensures
        res@ == attr_escaped(s@),
{
    let mut out: Vec<char> = Vec::new();
    push_attr(&mut out, &chars_of(s));
    string_of(&out)
}

/// The text between the first `<title>` and the first `</title>` after it
/// (what the pattern `(?s)<title>(.*?)</title>` captures).
pub open spec fn title_of(html: Seq<char>) -> Option<Seq<char>> {
    match find(html, "<title>"@) {
        Some(i) => match find_from(html, "</title>"@, i + 7) {
            Some(j) => Some(html.subrange(i + 7, j)),
            None => None,
        },
        None => None,
    }
}

/// The page's `<title>` text, if it has one.
pub fn extract_title(html: &str) -> (res: Option<String>)
    ensures
        res matches Some(t) ==> title_of(html@) == Some(t@),
        res is None ==> title_of(html@) is None,
{
    let h = chars_of(html);
    let title_chars = title_chars(&h);
    match title_chars {
        Some(t) => Some(string_of(&t)),
        None => None,
    }
}

/// `extract_title` on characters.
fn title_chars(h: &Vec<char>) -> (res: Option<Vec<char>>)
    ensures
        res matches Some(t) ==> title_of(h@) == Some(t@),
        res is None ==> title_of(h@) is None,
{
    proof {
        reveal_strlit("<title>");
        reveal_strlit("</title>");
    }
    let open = chars_of("<title>");
    let close = chars_of("</title>");
    match find_from_exec(h, &open, 0) {
        Some(i) => {
            proof {
                lemma_find_from(h@, open@, 0);
            }
            assert(matches_at(h@, i as int, open@));
            assert(i + 7 <= h.len());
            match find_from_exec(h, &close, i + 7) {
                Some(j) => {
                    proof {
                        lemma_find_from(h@, close@, i + 7);
                    }
                    let mut t: Vec<char> = Vec::new();
                    push_range(&mut t, h, i + 7, j);
                    Some(t)
                },
                None => None,
            }
        },
        None => None,
    }
}

/// The title shown in social cards: the page's decoded `<title>`, else the
/// site title.
pub open spec fn card_title(html: Seq<char>, config: Config) -> Seq<char> {
    match title_of(html) {
        Some(t) => decoded(t),
        None => config.title@,
    }
}

/// The favicon `<link>` tags, one per line.
pub open spec fn favicon_lines(favicons: Seq<String>) -> Seq<char>
    decreases favicons.len(),
{
    if favicons.len() == 0 {
        seq![]
    } else {
        favicon_lines(favicons.drop_last()) + "    "@ + favicons.last()@ + "\n"@
    }
}

/// The `<head>` block added before `</head>`: the metadata lines, the favicon
/// links, and `</head>` again.
pub open spec fn head_block(
    title: Seq<char>,
    site: Seq<char>,
    canonical: Seq<char>,
    description: Seq<char>,
    is_article: bool,
    favicons: Seq<String>,
) -> Seq<char> {
    meta_lines(title, site, canonical, description, is_article) + favicon_lines(favicons)
        + "  </head>"@
}

/// The metadata lines of the `<head>` block.
pub open spec fn meta_lines(
    title: Seq<char>,
    site: Seq<char>,
    canonical: Seq<char>,
    description: Seq<char>,
    is_article: bool,
) -> Seq<char> {
    let t = attr_escaped(title);
    let d = attr_escaped(description);
    let c = attr_escaped(canonical);
    let s = attr_escaped(site);
    let og_type = if is_article {
        "article"@
    } else {
        "website"@
    };
    "    <meta name=\"description\" content=\""@ + d + "\">\n"@
        + "    <link rel=\"canonical\" href=\""@ + c + "\">\n"@
        + "    <meta name=\"theme-color\" media=\"(prefers-color-scheme: light)\" content=\"#fcfcfb\">\n"@
        + "    <meta name=\"theme-color\" media=\"(prefers-color-scheme: dark)\" content=\"#0f0f12\">\n"@
        + "    <meta property=\"og:type\" content=\""@ + og_type + "\">\n"@
        + "    <meta property=\"og:title\" content=\""@ + t + "\">\n"@
        + "    <meta property=\"og:description\" content=\""@ + d + "\">\n"@
        + "    <meta property=\"og:url\" content=\""@ + c + "\">\n"@
        + "    <meta property=\"og:site_name\" content=\""@ + s + "\">\n"@
        + "    <meta name=\"twitter:card\" content=\"summary\">\n"@
        + "    <link rel=\"alternate\" type=\"application/rss+xml\" title=\""@ + s
        + "\" href=\"/feed.xml\">\n"@
}

/// The `<head>` block `meta` puts into `html`.
pub open spec fn meta_block(
    html: Seq<char>,
    config: Config,
    canonical: Seq<char>,
    description: Seq<char>,
    is_article: bool,
) -> Seq<char> {
    head_block(
        card_title(html, config),
        config.title@,
        canonical,
        description,
        is_article,
        config.favicons@,
    )
}

/// The page with its `<head>` metadata: the block, favicon links included,
/// replaces the first `</head>` (and ends with one).
pub open spec fn with_meta(
    html: Seq<char>,
    config: Config,
    canonical: Seq<char>,
    description: Seq<char>,
    is_article: bool,
) -> Seq<char> {
    replace_first(html, "</head>"@, meta_block(html, config, canonical, description, is_article))
}

/// Inject SEO/social `<head>` tags into a page's HTML. `canonical` is the page's
/// absolute URL; `description` is the post summary (or site description);
/// `is_article` distinguishes posts from listings/pages.
pub fn meta(
    html: &str,
    config: &Config,
    canonical: &str,
    description: &str,
    is_article: bool,
) -> (res: String)
    ensures
        res@ == with_meta(html@, *config, canonical@, description@, is_article),
{
    let h = chars_of(html);
    // The <title> is already HTML-escaped by Typst; decode it before escaping
    // it again so it isn't double-escaped in og:title.
    let title = match title_chars(&h) {
        Some(t) => decode_chars(&t),
        None => chars_of(config.title.as_str()),
    };
    let d = chars_of(description);
    let c = chars_of(canonical);
    let site = chars_of(config.title.as_str());
    let mut s: Vec<char> = Vec::new();
    push_str(&mut s, "    <meta name=\"description\" content=\"");
    push_attr(&mut s, &d);
    push_str(&mut s, "\">\n");
    push_str(&mut s, "    <link rel=\"canonical\" href=\"");
    push_attr(&mut s, &c);
    push_str(&mut s, "\">\n");
    push_str(
        &mut s,
        "    <meta name=\"theme-color\" media=\"(prefers-color-scheme: light)\" content=\"#fcfcfb\">\n",
    );
    push_str(
        &mut s,
        "    <meta name=\"theme-color\" media=\"(prefers-color-scheme: dark)\" content=\"#0f0f12\">\n",
    );
    push_str(&mut s, "    <meta property=\"og:type\" content=\"");
    if is_article {
        push_str(&mut s, "article");
    } else {
        push_str(&mut s, "website");
    }
    push_str(&mut s, "\">\n");
    push_str(&mut s, "    <meta property=\"og:title\" content=\"");
    push_attr(&mut s, &title);
    push_str(&mut s, "\">\n");
    push_str(&mut s, "    <meta property=\"og:description\" content=\"");
    push_attr(&mut s, &d);
    push_str(&mut s, "\">\n");
    push_str(&mut s, "    <meta property=\"og:url\" content=\"");
    push_attr(&mut s, &c);
    push_str(&mut s, "\">\n");
    push_str(&mut s, "    <meta property=\"og:site_name\" content=\"");
    push_attr(&mut s, &site);
    push_str(&mut s, "\">\n");
    push_str(&mut s, "    <meta name=\"twitter:card\" content=\"summary\">\n");
    push_str(&mut s, "    <link rel=\"alternate\" type=\"application/rss+xml\" title=\"");
    push_attr(&mut s, &site);
    push_str(&mut s, "\" href=\"/feed.xml\">\n");
    assert(s@ =~= meta_lines(
        card_title(html@, *config),
        config.title@,
        canonical@,
        description@,
        is_article,
    ));
    let ghost lines = s@;
    let mut i: usize = 0;
    while i < config.favicons.len()
        invariant
            i <= config.favicons@.len(),
            s@ == lines + favicon_lines(config.favicons@.take(i as int)),
        decreases config.favicons.len() - i,
    {
        assert(config.favicons@.take(i + 1).drop_last() == config.favicons@.take(i as int));
        push_str(&mut s, "    ");
        push_str(&mut s, config.favicons[i].as_str());
        push_str(&mut s, "\n");
        assert(s@ =~= lines + favicon_lines(config.favicons@.take(i + 1)));
        i = i + 1;
    }
    assert(config.favicons@.take(config.favicons@.len() as int) == config.favicons@);
    push_str(&mut s, "  </head>");
    assert(s@ =~= head_block(
        card_title(html@, *config),
        config.title@,
        canonical@,
        description@,
        is_article,
        config.favicons@,
    ));
    let out = replace_first_exec(&h, &chars_of("</head>"), &s);
    string_of(&out)
}


/// `s` holds no `</head>`.
pub open spec fn close_free(s: Seq<char>) -> bool {
    forall|k: int| !matches_at(s, k, "</head>"@)
}

/// A character of `</head>`.
spec fn in_close_tag(c: char) -> bool {
    c == '<' || c == '/' || c == 'h' || c == 'e' || c == 'a' || c == 'd' || c == '>'
}

/// Two pieces are kept apart by a character that `</head>` does not hold.
spec fn separated(x: Seq<char>, y: Seq<char>) -> bool {
    (x.len() > 0 && !in_close_tag(x.last())) || (y.len() > 0 && !in_close_tag(y[0]))
}

/// No `<` directly before a `/` from index `i` on.
spec fn no_lt_slash_from(s: Seq<char>, i: int) -> bool
    decreases s.len() - i,
{
    if i < 0 || i + 1 >= s.len() {
        true
    } else {
        !(s[i] == '<' && s[i + 1] == '/') && no_lt_slash_from(s, i + 1)
    }
}

proof fn lemma_close_chars(s: Seq<char>, k: int)
    requires
        matches_at(s, k, "</head>"@),
    ensures
        0 <= k,
        k + 7 <= s.len(),
        s[k] == '<',
        s[k + 1] == '/',
        forall|j: int| 0 <= j < 7 ==> in_close_tag(#[trigger] s[k + j]),
{
    reveal_strlit("</head>");
    assert forall|j: int| 0 <= j < 7 implies in_close_tag(#[trigger] s[k + j]) by {
        assert(s.subrange(k, k + 7)[j] == s[k + j]);
    }
    assert(s.subrange(k, k + 7)[0] == s[k]);
    assert(s.subrange(k, k + 7)[1] == s[k + 1]);
}

proof fn lemma_no_lt_slash_close_free(s: Seq<char>, i: int)
    requires
        0 <= i,
        no_lt_slash_from(s, i),
    ensures
        forall|k: int| i <= k ==> !matches_at(s, k, "</head>"@),
    decreases s.len() - i,
{
    if i + 1 < s.len() {
        lemma_no_lt_slash_close_free(s, i + 1);
    }
    assert forall|k: int| i <= k implies !matches_at(s, k, "</head>"@) by {
        if matches_at(s, k, "</head>"@) {
            lemma_close_chars(s, k);
        }
    }
}

/// How a match in `x + y` that lies wholly in one piece is a match there.
proof fn lemma_match_in_piece(x: Seq<char>, y: Seq<char>, k: int)
    ensures
        0 <= k && k + 7 <= x.len() ==> (matches_at(x + y, k, "</head>"@) <==> matches_at(
            x,
            k,
            "</head>"@,
        )),
        x.len() <= k ==> (matches_at(x + y, k, "</head>"@) <==> matches_at(
            y,
            k - x.len(),
            "</head>"@,
        )),
{
    reveal_strlit("</head>");
    if 0 <= k && k + 7 <= x.len() {
        assert((x + y).subrange(k, k + 7) =~= x.subrange(k, k + 7));
    }
    if x.len() <= k && k + 7 <= x.len() + y.len() {
        assert((x + y).subrange(k, k + 7) =~= y.subrange(k - x.len(), k - x.len() + 7));
    }
}

proof fn lemma_concat_close_free(x: Seq<char>, y: Seq<char>)
    requires
        close_free(x),
        close_free(y),
        separated(x, y),
    ensures
        close_free(x + y),
{
    assert forall|k: int| !matches_at(x + y, k, "</head>"@) by {
        lemma_match_in_piece(x, y, k);
        if matches_at(x + y, k, "</head>"@) {
            lemma_close_chars(x + y, k);
            if k < x.len() && x.len() < k + 7 {
                assert(in_close_tag((x + y)[k + (x.len() - 1 - k)]));
                assert(in_close_tag((x + y)[k + (x.len() - k)]));
                assert(false);
            }
        }
    }
}

proof fn lemma_attr_close_free(v: Seq<char>)
    ensures
        forall|j: int| 0 <= j < attr_escaped(v).len() ==> #[trigger] attr_escaped(v)[j] != '<',
        close_free(attr_escaped(v)),
    decreases v.len(),
{
    if v.len() > 0 {
        lemma_attr_close_free(v.drop_last());
        let a = attr_escaped(v.drop_last());
        let b = attr_char(v.last());
        assert forall|j: int| 0 <= j < (a + b).len() implies #[trigger] (a + b)[j] != '<' by {
            if j >= a.len() {
                assert((a + b)[j] == b[j - a.len()]);
            }
        }
    }
    assert forall|k: int| !matches_at(attr_escaped(v), k, "</head>"@) by {
        if matches_at(attr_escaped(v), k, "</head>"@) {
            lemma_close_chars(attr_escaped(v), k);
        }
    }
}

proof fn lemma_favicon_lines_close_free(favicons: Seq<String>)
    requires
        forall|i: int| 0 <= i < favicons.len() ==> close_free(#[trigger] favicons[i]@),
    ensures
        close_free(favicon_lines(favicons)),
        favicon_lines(favicons).len() > 0 ==> favicon_lines(favicons).last() == '\n',
    decreases favicons.len(),
{
    reveal_strlit("    ");
    reveal_strlit("\n");
    reveal_strlit("</head>");
    if favicons.len() > 0 {
        let rest = favicons.drop_last();
        assert forall|i: int| 0 <= i < rest.len() implies close_free(#[trigger] rest[i]@) by {
            assert(rest[i] == favicons[i]);
        }
        lemma_favicon_lines_close_free(rest);
        let a = favicon_lines(rest);
        let f = favicons.last()@;
        assert(close_free(f)) by {
            assert(favicons[favicons.len() - 1] == favicons.last());
        }
        assert(close_free("    "@)) by {
            reveal_with_fuel(no_lt_slash_from, 5);
            lemma_no_lt_slash_close_free("    "@, 0);
        }
        assert(close_free("\n"@)) by {
            lemma_no_lt_slash_close_free("\n"@, 0);
        }
        lemma_concat_close_free(a, "    "@);
        lemma_concat_close_free(a + "    "@, f);
        lemma_concat_close_free(a + "    "@ + f, "\n"@);
    }
}

proof fn lemma_meta_lines_close_free(
    title: Seq<char>,
    site: Seq<char>,
    canonical: Seq<char>,
    description: Seq<char>,
    is_article: bool,
)
    ensures
        close_free(meta_lines(title, site, canonical, description, is_article)),
        meta_lines(title, site, canonical, description, is_article).len() > 0,
        meta_lines(title, site, canonical, description, is_article)[0] == ' ',
        meta_lines(title, site, canonical, description, is_article).last() == '\n',
{
    reveal_strlit("    <meta name=\"description\" content=\"");
    reveal_strlit("\">\n");
    reveal_strlit("    <link rel=\"canonical\" href=\"");
    reveal_strlit("    <meta name=\"theme-color\" media=\"(prefers-color-scheme: light)\" content=\"#fcfcfb\">\n");
    reveal_strlit("    <meta name=\"theme-color\" media=\"(prefers-color-scheme: dark)\" content=\"#0f0f12\">\n");
    reveal_strlit("    <meta property=\"og:type\" content=\"");
    reveal_strlit("article");
    reveal_strlit("website");
    reveal_strlit("    <meta property=\"og:title\" content=\"");
    reveal_strlit("    <meta property=\"og:description\" content=\"");
    reveal_strlit("    <meta property=\"og:url\" content=\"");
    reveal_strlit("    <meta property=\"og:site_name\" content=\"");
    reveal_strlit("    <meta name=\"twitter:card\" content=\"summary\">\n");
    reveal_strlit("    <link rel=\"alternate\" type=\"application/rss+xml\" title=\"");
    reveal_strlit("\" href=\"/feed.xml\">\n");
    let t = attr_escaped(title);
    let d = attr_escaped(description);
    let c = attr_escaped(canonical);
    let s = attr_escaped(site);
    lemma_attr_close_free(title);
    lemma_attr_close_free(description);
    lemma_attr_close_free(canonical);
    lemma_attr_close_free(site);
    let og = if is_article {
        "article"@
    } else {
        "website"@
    };
    assert(close_free("    <meta name=\"description\" content=\""@)) by {
        reveal_with_fuel(no_lt_slash_from, 100);
        lemma_no_lt_slash_close_free("    <meta name=\"description\" content=\""@, 0);
    }
    assert(close_free("\">\n"@)) by {
        reveal_with_fuel(no_lt_slash_from, 100);
        lemma_no_lt_slash_close_free("\">\n"@, 0);
    }
    assert(close_free("    <link rel=\"canonical\" href=\""@)) by {
        reveal_with_fuel(no_lt_slash_from, 100);
        lemma_no_lt_slash_close_free("    <link rel=\"canonical\" href=\""@, 0);
    }
    assert(close_free("    <meta name=\"theme-color\" media=\"(prefers-color-scheme: light)\" content=\"#fcfcfb\">\n"@)) by {
        reveal_with_fuel(no_lt_slash_from, 100);
        lemma_no_lt_slash_close_free("    <meta name=\"theme-color\" media=\"(prefers-color-scheme: light)\" content=\"#fcfcfb\">\n"@, 0);
    }
    assert(close_free("    <meta name=\"theme-color\" media=\"(prefers-color-scheme: dark)\" content=\"#0f0f12\">\n"@)) by {
        reveal_with_fuel(no_lt_slash_from, 100);
        lemma_no_lt_slash_close_free("    <meta name=\"theme-color\" media=\"(prefers-color-scheme: dark)\" content=\"#0f0f12\">\n"@, 0);
    }
    assert(close_free("    <meta property=\"og:type\" content=\""@)) by {
        reveal_with_fuel(no_lt_slash_from, 100);
        lemma_no_lt_slash_close_free("    <meta property=\"og:type\" content=\""@, 0);
    }
    assert(close_free("article"@)) by {
        reveal_with_fuel(no_lt_slash_from, 100);
        lemma_no_lt_slash_close_free("article"@, 0);
    }
    assert(close_free("website"@)) by {
        reveal_with_fuel(no_lt_slash_from, 100);
        lemma_no_lt_slash_close_free("website"@, 0);
    }
    assert(close_free("    <meta property=\"og:title\" content=\""@)) by {
        reveal_with_fuel(no_lt_slash_from, 100);
        lemma_no_lt_slash_close_free("    <meta property=\"og:title\" content=\""@, 0);
    }
    assert(close_free("    <meta property=\"og:description\" content=\""@)) by {
        reveal_with_fuel(no_lt_slash_from, 100);
        lemma_no_lt_slash_close_free("    <meta property=\"og:description\" content=\""@, 0);
    }
    assert(close_free("    <meta property=\"og:url\" content=\""@)) by {
        reveal_with_fuel(no_lt_slash_from, 100);
        lemma_no_lt_slash_close_free("    <meta property=\"og:url\" content=\""@, 0);
    }
    assert(close_free("    <meta property=\"og:site_name\" content=\""@)) by {
        reveal_with_fuel(no_lt_slash_from, 100);
        lemma_no_lt_slash_close_free("    <meta property=\"og:site_name\" content=\""@, 0);
    }
    assert(close_free("    <meta name=\"twitter:card\" content=\"summary\">\n"@)) by {
        reveal_with_fuel(no_lt_slash_from, 100);
        lemma_no_lt_slash_close_free("    <meta name=\"twitter:card\" content=\"summary\">\n"@, 0);
    }
    assert(close_free("    <link rel=\"alternate\" type=\"application/rss+xml\" title=\""@)) by {
        reveal_with_fuel(no_lt_slash_from, 100);
        lemma_no_lt_slash_close_free("    <link rel=\"alternate\" type=\"application/rss+xml\" title=\""@, 0);
    }
    assert(close_free("\" href=\"/feed.xml\">\n"@)) by {
        reveal_with_fuel(no_lt_slash_from, 100);
        lemma_no_lt_slash_close_free("\" href=\"/feed.xml\">\n"@, 0);
    }
    let a0 = "    <meta name=\"description\" content=\""@;
    lemma_concat_close_free(a0, d);
    let a1 = a0 + d;
    lemma_concat_close_free(a1, "\">\n"@);
    let a2 = a1 + "\">\n"@;
    lemma_concat_close_free(a2, "    <link rel=\"canonical\" href=\""@);
    let a3 = a2 + "    <link rel=\"canonical\" href=\""@;
    lemma_concat_close_free(a3, c);
    let a4 = a3 + c;
    lemma_concat_close_free(a4, "\">\n"@);
    let a5 = a4 + "\">\n"@;
    lemma_concat_close_free(a5, "    <meta name=\"theme-color\" media=\"(prefers-color-scheme: light)\" content=\"#fcfcfb\">\n"@);
    let a6 = a5 + "    <meta name=\"theme-color\" media=\"(prefers-color-scheme: light)\" content=\"#fcfcfb\">\n"@;
    lemma_concat_close_free(a6, "    <meta name=\"theme-color\" media=\"(prefers-color-scheme: dark)\" content=\"#0f0f12\">\n"@);
    let a7 = a6 + "    <meta name=\"theme-color\" media=\"(prefers-color-scheme: dark)\" content=\"#0f0f12\">\n"@;
    lemma_concat_close_free(a7, "    <meta property=\"og:type\" content=\""@);
    let a8 = a7 + "    <meta property=\"og:type\" content=\""@;
    lemma_concat_close_free(a8, og);
    let a9 = a8 + og;
    lemma_concat_close_free(a9, "\">\n"@);
    let a10 = a9 + "\">\n"@;
    lemma_concat_close_free(a10, "    <meta property=\"og:title\" content=\""@);
    let a11 = a10 + "    <meta property=\"og:title\" content=\""@;
    lemma_concat_close_free(a11, t);
    let a12 = a11 + t;
    lemma_concat_close_free(a12, "\">\n"@);
    let a13 = a12 + "\">\n"@;
    lemma_concat_close_free(a13, "    <meta property=\"og:description\" content=\""@);
    let a14 = a13 + "    <meta property=\"og:description\" content=\""@;
    lemma_concat_close_free(a14, d);
    let a15 = a14 + d;
    lemma_concat_close_free(a15, "\">\n"@);
    let a16 = a15 + "\">\n"@;
    lemma_concat_close_free(a16, "    <meta property=\"og:url\" content=\""@);
    let a17 = a16 + "    <meta property=\"og:url\" content=\""@;
    lemma_concat_close_free(a17, c);
    let a18 = a17 + c;
    lemma_concat_close_free(a18, "\">\n"@);
    let a19 = a18 + "\">\n"@;
    lemma_concat_close_free(a19, "    <meta property=\"og:site_name\" content=\""@);
    let a20 = a19 + "    <meta property=\"og:site_name\" content=\""@;
    lemma_concat_close_free(a20, s);
    let a21 = a20 + s;
    lemma_concat_close_free(a21, "\">\n"@);
    let a22 = a21 + "\">\n"@;
    lemma_concat_close_free(a22, "    <meta name=\"twitter:card\" content=\"summary\">\n"@);
    let a23 = a22 + "    <meta name=\"twitter:card\" content=\"summary\">\n"@;
    lemma_concat_close_free(a23, "    <link rel=\"alternate\" type=\"application/rss+xml\" title=\""@);
    let a24 = a23 + "    <link rel=\"alternate\" type=\"application/rss+xml\" title=\""@;
    lemma_concat_close_free(a24, s);
    let a25 = a24 + s;
    lemma_concat_close_free(a25, "\" href=\"/feed.xml\">\n"@);
    let a26 = a25 + "\" href=\"/feed.xml\">\n"@;
    assert(a26 == meta_lines(title, site, canonical, description, is_article));
}


proof fn lemma_close_free_of_absent(f: Seq<char>)
    requires
        !contains(f, "</head>"@),
    ensures
        close_free(f),
{
    lemma_find_from(f, "</head>"@, 0);
}

/// The `<head>` block holds `</head>` once, at its very end, as long as no
/// favicon tag holds one: every other value in it is attribute-escaped.
pub proof fn lemma_head_block_one_close(
    title: Seq<char>,
    site: Seq<char>,
    canonical: Seq<char>,
    description: Seq<char>,
    is_article: bool,
    favicons: Seq<String>,
)
    requires
        forall|i: int| 0 <= i < favicons.len() ==> !contains(#[trigger] favicons[i]@, "</head>"@),
    ensures
        ({
            let b = head_block(title, site, canonical, description, is_article, favicons);
            &&& b.len() >= 7
            &&& forall|k: int| matches_at(b, k, "</head>"@) <==> k == b.len() - 7
            &&& find(b, "</head>"@) == Some(b.len() - 7)
            &&& b[0] == ' '
            &&& forall|j: int| b.len() - 6 <= j < b.len() ==> b[j] != '<'
        }),
{
    reveal_strlit("</head>");
    reveal_strlit("  </head>");
    assert forall|i: int| 0 <= i < favicons.len() implies close_free(#[trigger] favicons[i]@) by {
        lemma_close_free_of_absent(favicons[i]@);
    }
    lemma_meta_lines_close_free(title, site, canonical, description, is_article);
    lemma_favicon_lines_close_free(favicons);
    let ml = meta_lines(title, site, canonical, description, is_article);
    let x = ml + favicon_lines(favicons);
    lemma_concat_close_free(ml, favicon_lines(favicons));
    let tail = "  </head>"@;
    let b = x + tail;
    assert(b == head_block(title, site, canonical, description, is_article, favicons));
    assert(tail.subrange(2, 9) =~= "</head>"@);
    assert forall|k: int| matches_at(b, k, "</head>"@) <==> k == b.len() - 7 by {
        lemma_match_in_piece(x, tail, k);
        if matches_at(b, k, "</head>"@) {
            lemma_close_chars(b, k);
            if k < x.len() && x.len() < k + 7 {
                assert(in_close_tag(b[k + (x.len() - k)]));
                assert(b[x.len() as int] == ' ');
            }
            if x.len() <= k {
                assert(b[k] == tail[k - x.len()]);
            }
        }
    }
    assert forall|j: int| b.len() - 6 <= j < b.len() implies b[j] != '<' by {
        assert(b[j] == tail[j - x.len()]);
    }
    lemma_find_from_is(b, "</head>"@, 0, b.len() - 7);
}

proof fn lemma_match_in_suffix(s: Seq<char>, m: int, j: int)
    requires
        0 <= m <= s.len(),
        0 <= j,
    ensures
        matches_at(s.subrange(m, s.len() as int), j, "</head>"@) <==> matches_at(
            s,
            m + j,
            "</head>"@,
        ),
{
    reveal_strlit("</head>");
    if j + 7 <= s.len() - m {
        assert(s.subrange(m, s.len() as int).subrange(j, j + 7) =~= s.subrange(m + j, m + j + 7));
    }
}

/// `meta` keeps the page's `</head>` tags: a page without one comes back
/// unchanged; otherwise the first gives way to the block, which holds a
/// `</head>` only at its end, and every later `</head>` of the page stays,
/// moved on by the block's length. So a page with one `</head>` keeps exactly
/// one. This holds as long as no favicon tag holds a `</head>`.
pub proof fn lemma_meta_keeps_close_tags(
    html: Seq<char>,
    config: Config,
    canonical: Seq<char>,
    description: Seq<char>,
    is_article: bool,
)
    requires
        forall|i: int|
            0 <= i < config.favicons@.len() ==> !contains(
                #[trigger] config.favicons@[i]@,
                "</head>"@,
            ),
    ensures
        find(html, "</head>"@) is None ==> with_meta(
            html,
            config,
            canonical,
            description,
            is_article,
        ) == html,
        find(html, "</head>"@) matches Some(i) ==> ({
            let r = with_meta(html, config, canonical, description, is_article);
            let b = meta_block(html, config, canonical, description, is_article);
            forall|k: int|
                matches_at(r, k, "</head>"@) <==> (k == i + b.len() - 7 || (i + b.len() <= k
                    && matches_at(html, k - b.len() + 7, "</head>"@)))
        }),
{
    reveal_strlit("</head>");
    lemma_find_from(html, "</head>"@, 0);
    if let Some(i) = find(html, "</head>"@) {
        let b = meta_block(html, config, canonical, description, is_article);
        lemma_head_block_one_close(
            card_title(html, config),
            config.title@,
            canonical,
            description,
            is_article,
            config.favicons@,
        );
        let pre = html.subrange(0, i);
        let post = html.subrange(i + 7, html.len() as int);
        let r = with_meta(html, config, canonical, description, is_article);
        assert(r == pre + b + post);
        assert forall|k: int| !matches_at(pre, k, "</head>"@) by {
            if matches_at(pre, k, "</head>"@) {
                assert(pre.subrange(k, k + 7) =~= html.subrange(k, k + 7));
                assert(matches_at(html, k, "</head>"@));
                assert(k < i);
            }
        }
        let pb = pre + b;
        assert forall|k: int| matches_at(pb, k, "</head>"@) <==> k == i + b.len() - 7 by {
            lemma_match_in_piece(pre, b, k);
            if matches_at(pb, k, "</head>"@) && k < pre.len() && pre.len() < k + 7 {
                lemma_close_chars(pb, k);
                assert(in_close_tag(pb[k + (pre.len() - k)]));
                assert(pb[pre.len() as int] == b[0]);
            }
        }
        assert forall|k: int|
            matches_at(r, k, "</head>"@) <==> (k == i + b.len() - 7 || (i + b.len() <= k
                && matches_at(html, k - b.len() + 7, "</head>"@))) by {
            lemma_match_in_piece(pb, post, k);
            if pb.len() <= k {
                lemma_match_in_suffix(html, i + 7, k - pb.len());
            }
            if matches_at(r, k, "</head>"@) && k < pb.len() && pb.len() < k + 7 {
                lemma_close_chars(r, k);
                assert(r[k] == pb[k]);
                assert(pb[k] == b[k - pre.len()]);
            }
        }
    }
}

/// The plain description line of a page with `description`.
pub open spec fn description_line(description: Seq<char>) -> Seq<char> {
    "    <meta name=\"description\" content=\""@ + attr_escaped(description) + "\">\n"@
}

/// The `og:description` line of a page with `description`.
pub open spec fn og_description_line(description: Seq<char>) -> Seq<char> {
    "    <meta property=\"og:description\" content=\""@ + attr_escaped(description) + "\">\n"@
}

proof fn lemma_meta_lines_describe(
    title: Seq<char>,
    site: Seq<char>,
    canonical: Seq<char>,
    description: Seq<char>,
    is_article: bool,
) -> (k: int)
    ensures
        matches_at(
            meta_lines(title, site, canonical, description, is_article),
            0,
            description_line(description),
        ),
        matches_at(
            meta_lines(title, site, canonical, description, is_article),
            k,
            og_description_line(description),
        ),
{
    let ml = meta_lines(title, site, canonical, description, is_article);
    let t = attr_escaped(title);
    let d = attr_escaped(description);
    let c = attr_escaped(canonical);
    let st = attr_escaped(site);
    let og_type = if is_article {
        "article"@
    } else {
        "website"@
    };
    let before = "    <meta name=\"description\" content=\""@ + d + "\">\n"@
        + "    <link rel=\"canonical\" href=\""@ + c + "\">\n"@
        + "    <meta name=\"theme-color\" media=\"(prefers-color-scheme: light)\" content=\"#fcfcfb\">\n"@
        + "    <meta name=\"theme-color\" media=\"(prefers-color-scheme: dark)\" content=\"#0f0f12\">\n"@
        + "    <meta property=\"og:type\" content=\""@ + og_type + "\">\n"@
        + "    <meta property=\"og:title\" content=\""@ + t + "\">\n"@;
    let after = "    <meta property=\"og:url\" content=\""@ + c + "\">\n"@
        + "    <meta property=\"og:site_name\" content=\""@ + st + "\">\n"@
        + "    <meta name=\"twitter:card\" content=\"summary\">\n"@
        + "    <link rel=\"alternate\" type=\"application/rss+xml\" title=\""@ + st
        + "\" href=\"/feed.xml\">\n"@;
    let first_rest = ml.subrange(description_line(description).len() as int, ml.len() as int);
    assert(ml.subrange(0, description_line(description).len() as int) =~= description_line(
        description,
    ));
    assert(ml =~= before + og_description_line(description) + after);
    lemma_matches_middle(before, og_description_line(description), after);
    before.len() as int
}

/// The `rel="canonical"` line of a page at `canonical`.
pub open spec fn canonical_line(canonical: Seq<char>) -> Seq<char> {
    "    <link rel=\"canonical\" href=\""@ + attr_escaped(canonical) + "\">\n"@
}

#[verifier::rlimit(50)]
proof fn lemma_meta_lines_canonical_line(
    title: Seq<char>,
    site: Seq<char>,
    canonical: Seq<char>,
    description: Seq<char>,
    is_article: bool,
) -> (k: int)
    ensures
        matches_at(meta_lines(title, site, canonical, description, is_article), k, canonical_line(canonical)),
{
    let t = attr_escaped(title);
    let d = attr_escaped(description);
    let c = attr_escaped(canonical);
    let st = attr_escaped(site);
    let og = if is_article {
        "article"@
    } else {
        "website"@
    };
    let before = "    <meta name=\"description\" content=\""@ + d + "\">\n"@;
    let after = "    <meta name=\"theme-color\" media=\"(prefers-color-scheme: light)\" content=\"#fcfcfb\">\n"@ + "    <meta name=\"theme-color\" media=\"(prefers-color-scheme: dark)\" content=\"#0f0f12\">\n"@ + "    <meta property=\"og:type\" content=\""@ + og + "\">\n"@ + "    <meta property=\"og:title\" content=\""@ + t + "\">\n"@ + "    <meta property=\"og:description\" content=\""@ + d + "\">\n"@ + "    <meta property=\"og:url\" content=\""@ + c + "\">\n"@ + "    <meta property=\"og:site_name\" content=\""@ + st + "\">\n"@ + "    <meta name=\"twitter:card\" content=\"summary\">\n"@ + "    <link rel=\"alternate\" type=\"application/rss+xml\" title=\""@ + st + "\" href=\"/feed.xml\">\n"@;
    assert(meta_lines(title, site, canonical, description, is_article) =~= before + canonical_line(canonical) + after);
    lemma_matches_middle(before, canonical_line(canonical), after);
    before.len() as int
}

/// The `og:type` line: `article` for a post, `website` otherwise.
pub open spec fn og_type_line(is_article: bool) -> Seq<char> {
    "    <meta property=\"og:type\" content=\""@ + (if is_article { "article"@ } else { "website"@ }) + "\">\n"@
}

#[verifier::rlimit(50)]
proof fn lemma_meta_lines_og_type_line(
    title: Seq<char>,
    site: Seq<char>,
    canonical: Seq<char>,
    description: Seq<char>,
    is_article: bool,
) -> (k: int)
    ensures
        matches_at(meta_lines(title, site, canonical, description, is_article), k, og_type_line(is_article)),
{
    let t = attr_escaped(title);
    let d = attr_escaped(description);
    let c = attr_escaped(canonical);
    let st = attr_escaped(site);
    let og = if is_article {
        "article"@
    } else {
        "website"@
    };
    let before = "    <meta name=\"description\" content=\""@ + d + "\">\n"@ + "    <link rel=\"canonical\" href=\""@ + c + "\">\n"@ + "    <meta name=\"theme-color\" media=\"(prefers-color-scheme: light)\" content=\"#fcfcfb\">\n"@ + "    <meta name=\"theme-color\" media=\"(prefers-color-scheme: dark)\" content=\"#0f0f12\">\n"@;
    let after = "    <meta property=\"og:title\" content=\""@ + t + "\">\n"@ + "    <meta property=\"og:description\" content=\""@ + d + "\">\n"@ + "    <meta property=\"og:url\" content=\""@ + c + "\">\n"@ + "    <meta property=\"og:site_name\" content=\""@ + st + "\">\n"@ + "    <meta name=\"twitter:card\" content=\"summary\">\n"@ + "    <link rel=\"alternate\" type=\"application/rss+xml\" title=\""@ + st + "\" href=\"/feed.xml\">\n"@;
    assert(meta_lines(title, site, canonical, description, is_article) =~= before + og_type_line(is_article) + after);
    lemma_matches_middle(before, og_type_line(is_article), after);
    before.len() as int
}

/// The `og:title` line of a page titled `title`.
pub open spec fn og_title_line(title: Seq<char>) -> Seq<char> {
    "    <meta property=\"og:title\" content=\""@ + attr_escaped(title) + "\">\n"@
}

#[verifier::rlimit(50)]
proof fn lemma_meta_lines_og_title_line(
    title: Seq<char>,
    site: Seq<char>,
    canonical: Seq<char>,
    description: Seq<char>,
    is_article: bool,
) -> (k: int)
    ensures
        matches_at(meta_lines(title, site, canonical, description, is_article), k, og_title_line(title)),
{
    let t = attr_escaped(title);
    let d = attr_escaped(description);
    let c = attr_escaped(canonical);
    let st = attr_escaped(site);
    let og = if is_article {
        "article"@
    } else {
        "website"@
    };
    let before = "    <meta name=\"description\" content=\""@ + d + "\">\n"@ + "    <link rel=\"canonical\" href=\""@ + c + "\">\n"@ + "    <meta name=\"theme-color\" media=\"(prefers-color-scheme: light)\" content=\"#fcfcfb\">\n"@ + "    <meta name=\"theme-color\" media=\"(prefers-color-scheme: dark)\" content=\"#0f0f12\">\n"@ + "    <meta property=\"og:type\" content=\""@ + og + "\">\n"@;
    let after = "    <meta property=\"og:description\" content=\""@ + d + "\">\n"@ + "    <meta property=\"og:url\" content=\""@ + c + "\">\n"@ + "    <meta property=\"og:site_name\" content=\""@ + st + "\">\n"@ + "    <meta name=\"twitter:card\" content=\"summary\">\n"@ + "    <link rel=\"alternate\" type=\"application/rss+xml\" title=\""@ + st + "\" href=\"/feed.xml\">\n"@;
    assert(meta_lines(title, site, canonical, description, is_article) =~= before + og_title_line(title) + after);
    lemma_matches_middle(before, og_title_line(title), after);
    before.len() as int
}

/// The `og:url` line of a page at `canonical`.
pub open spec fn og_url_line(canonical: Seq<char>) -> Seq<char> {
    "    <meta property=\"og:url\" content=\""@ + attr_escaped(canonical) + "\">\n"@
}

#[verifier::rlimit(50)]
proof fn lemma_meta_lines_og_url_line(
    title: Seq<char>,
    site: Seq<char>,
    canonical: Seq<char>,
    description: Seq<char>,
    is_article: bool,
) -> (k: int)
    ensures
        matches_at(meta_lines(title, site, canonical, description, is_article), k, og_url_line(canonical)),
{
    let t = attr_escaped(title);
    let d = attr_escaped(description);
    let c = attr_escaped(canonical);
    let st = attr_escaped(site);
    let og = if is_article {
        "article"@
    } else {
        "website"@
    };
    let before = "    <meta name=\"description\" content=\""@ + d + "\">\n"@ + "    <link rel=\"canonical\" href=\""@ + c + "\">\n"@ + "    <meta name=\"theme-color\" media=\"(prefers-color-scheme: light)\" content=\"#fcfcfb\">\n"@ + "    <meta name=\"theme-color\" media=\"(prefers-color-scheme: dark)\" content=\"#0f0f12\">\n"@ + "    <meta property=\"og:type\" content=\""@ + og + "\">\n"@ + "    <meta property=\"og:title\" content=\""@ + t + "\">\n"@ + "    <meta property=\"og:description\" content=\""@ + d + "\">\n"@;
    let after = "    <meta property=\"og:site_name\" content=\""@ + st + "\">\n"@ + "    <meta name=\"twitter:card\" content=\"summary\">\n"@ + "    <link rel=\"alternate\" type=\"application/rss+xml\" title=\""@ + st + "\" href=\"/feed.xml\">\n"@;
    assert(meta_lines(title, site, canonical, description, is_article) =~= before + og_url_line(canonical) + after);
    lemma_matches_middle(before, og_url_line(canonical), after);
    before.len() as int
}

proof fn lemma_line_reaches_page(
    html: Seq<char>,
    config: Config,
    canonical: Seq<char>,
    description: Seq<char>,
    is_article: bool,
    k: int,
    line: Seq<char>,
)
    requires
        contains(html, "</head>"@),
        matches_at(
            meta_lines(card_title(html, config), config.title@, canonical, description, is_article),
            k,
            line,
        ),
    ensures
        contains(with_meta(html, config, canonical, description, is_article), line),
{
    reveal_strlit("</head>");
    let ml = meta_lines(card_title(html, config), config.title@, canonical, description, is_article);
    let block = meta_block(html, config, canonical, description, is_article);
    let tail = favicon_lines(config.favicons@) + "  </head>"@;
    assert(block =~= ml + tail);
    let i = find(html, "</head>"@)->0;
    lemma_find_from(html, "</head>"@, 0);
    let pre = html.subrange(0, i);
    let post = html.subrange(i + 7, html.len() as int);
    let r = with_meta(html, config, canonical, description, is_article);
    assert(r == pre + block + post);
    assert(r =~= pre + ml + (tail + post));
    lemma_matches_widen(ml, k, line, pre, tail + post);
    lemma_contains_at(r, pre.len() + k, line);
}

/// Every page with a `</head>` gets the description it is given, escaped for
/// an attribute, in both its plain and its `og:description` line, whatever
/// its `<title>`, site or kind: social cards show the post's summary, not its
/// title.
pub proof fn lemma_meta_describes_page(
    html: Seq<char>,
    config: Config,
    canonical: Seq<char>,
    description: Seq<char>,
    is_article: bool,
)
    requires
        contains(html, "</head>"@),
    ensures
        contains(
            with_meta(html, config, canonical, description, is_article),
            description_line(description),
        ),
        contains(
            with_meta(html, config, canonical, description, is_article),
            og_description_line(description),
        ),
{
    let title = card_title(html, config);
    let k = lemma_meta_lines_describe(title, config.title@, canonical, description, is_article);
    lemma_line_reaches_page(html, config, canonical, description, is_article, 0, description_line(description));
    lemma_line_reaches_page(html, config, canonical, description, is_article, k, og_description_line(description));
}

/// Every page with a `</head>` names its own URL in both its canonical link
/// and `og:url`, says whether it is an article, and titles its card with the
/// page's decoded `<title>` (the site title when it has none), each value
/// escaped for an attribute.
pub proof fn lemma_meta_names_page(
    html: Seq<char>,
    config: Config,
    canonical: Seq<char>,
    description: Seq<char>,
    is_article: bool,
)
    requires
        contains(html, "</head>"@),
    ensures
        contains(with_meta(html, config, canonical, description, is_article), canonical_line(canonical)),
        contains(with_meta(html, config, canonical, description, is_article), og_url_line(canonical)),
        contains(with_meta(html, config, canonical, description, is_article), og_type_line(is_article)),
        contains(
            with_meta(html, config, canonical, description, is_article),
            og_title_line(
                match title_of(html) {
                    Some(t) => decoded(t),
                    None => config.title@,
                },
            ),
        ),
{
    let title = card_title(html, config);
    let site = config.title@;
    let k1 = lemma_meta_lines_canonical_line(title, site, canonical, description, is_article);
    lemma_line_reaches_page(html, config, canonical, description, is_article, k1, canonical_line(canonical));
    let k2 = lemma_meta_lines_og_url_line(title, site, canonical, description, is_article);
    lemma_line_reaches_page(html, config, canonical, description, is_article, k2, og_url_line(canonical));
    let k3 = lemma_meta_lines_og_type_line(title, site, canonical, description, is_article);
    lemma_line_reaches_page(html, config, canonical, description, is_article, k3, og_type_line(is_article));
    let k4 = lemma_meta_lines_og_title_line(title, site, canonical, description, is_article);
    lemma_line_reaches_page(html, config, canonical, description, is_article, k4, og_title_line(title));
}

} // verus!
