//! RSS 2.0 feed generation.

use vstd::prelude::*;

use crate::dates::{pub_date, rfc2822};
use crate::model::{Config, PostMeta};
use crate::escaping::lemma_decode_xml;
use crate::strings::{
    chars_of, contains, lemma_contains_at, lemma_matches_middle, lemma_matches_nested,
    lemma_matches_widen, matches_at, push_range, push_str, string_of, trim_end_char,
    trim_end_char_exec,
};
use crate::text::decoded;

verus! {

/// The XML escape of one character: `&`, `<` and `>` become entities.
pub open spec fn xml_char(c: char) -> Seq<char> {
    if c == '&' {
        seq!['&', 'a', 'm', 'p', ';']
    } else if c == '<' {
        seq!['&', 'l', 't', ';']
    } else if c == '>' {
        seq!['&', 'g', 't', ';']
    } else {
        seq![c]
    }
}

/// `s` with every `&`, `<` and `>` escaped.
pub open spec fn xml_escaped(s: Seq<char>) -> Seq<char>
    decreases s.len(),
{
    if s.len() == 0 {
        seq![]
    } else {
        xml_escaped(s.drop_last()) + xml_char(s.last())
    }
}

/// Appends the XML escape of `s` to `out`.
pub fn push_xml(out: &mut Vec<char>, s: &[char])
    ensures
        final(out)@ == old(out)@ + xml_escaped(s@),
{
    let ghost start = out@;
    let mut i: usize = 0;
    while i < s.len()
        invariant
            i <= s@.len(),
            out@ == start + xml_escaped(s@.take(i as int)),
        decreases s.len() - i,
    {
        let c = s[i];
        assert(s@.take(i + 1).drop_last() == s@.take(i as int));
        if c == '&' {
            out.push('&');
            out.push('a');
            out.push('m');
            out.push('p');
            out.push(';');
        } else if c == '<' {
            out.push('&');
            out.push('l');
            out.push('t');
            out.push(';');
        } else if c == '>' {
            out.push('&');
            out.push('g');
            out.push('t');
            out.push(';');
        } else {
            out.push(c);
        }
        i = i + 1;
    }
    assert(s@.take(s@.len() as int) == s@);
}

/// Escape `&`, `<` and `>` for XML text (also used for HTML text).
pub fn xml(s: &str) -> (res: String)
    ensures
        res@ == xml_escaped(s@),
{
    let mut out: Vec<char> = Vec::new();
    push_xml(&mut out, &chars_of(s));
    string_of(&out)
}

/// The site URL without trailing slashes.
pub open spec fn base_url(config: Config) -> Seq<char> {
    trim_end_char(config.url@, '/')
}

/// A post's absolute URL.
pub open spec fn post_url(url: Seq<char>, slug: Seq<char>) -> Seq<char> {
    url + "/posts/"@ + slug + ".html"@
}

/// The `<item>` of one post.
pub open spec fn feed_item(url: Seq<char>, p: PostMeta) -> Seq<char> {
    let link = xml_escaped(post_url(url, p.slug@));
    "    <item>\n"@ + "      <title>"@ + xml_escaped(p.title@) + "</title>\n"@ + "      <link>"@
        + link + "</link>\n"@ + "      <guid>"@ + link + "</guid>\n"@ + "      <pubDate>"@
        + pub_date(p.date@) + "</pubDate>\n"@ + "      <description>"@ + xml_escaped(p.summary@)
        + "</description>\n"@ + "    </item>\n"@
}

/// The `<item>`s of the posts, in the order given.
pub open spec fn feed_items(url: Seq<char>, posts: Seq<PostMeta>) -> Seq<char>
    decreases posts.len(),
{
    if posts.len() == 0 {
        seq![]
    } else {
        feed_items(url, posts.drop_last()) + feed_item(url, posts.last())
    }
}

/// The RSS 2.0 document for the site and its posts.
pub open spec fn feed_document(config: Config, posts: Seq<PostMeta>) -> Seq<char> {
    let url = base_url(config);
    "<?xml version=\"1.0\" encoding=\"UTF-8\"?>\n"@ + "<rss version=\"2.0\">\n  <channel>\n"@
        + "    <title>"@ + xml_escaped(config.title@) + "</title>\n"@ + "    <link>"@
        + xml_escaped(url) + "</link>\n"@ + "    <description>"@ + xml_escaped(
        config.description@,
    ) + "</description>\n"@ + feed_items(url, posts) + "  </channel>\n</rss>\n"@
}

/// Render an RSS 2.0 feed for the posts (given newest first).
pub fn render_feed(config: &Config, posts: &[PostMeta]) -> (res: String)
    ensures
        res@ == feed_document(*config, posts@),
{
    let mut s: Vec<char> = Vec::new();
    write_feed(&mut s, config, posts);
    string_of(&s)
}

/// The `<item>` of post `p`, for site URL `url`.
fn item_chars(url: &Vec<char>, p: &PostMeta) -> (res: Vec<char>)
    ensures
        res@ == feed_item(url@, *p),
{
    let mut link: Vec<char> = Vec::new();
    push_range(&mut link, url, 0, url.len());
    push_str(&mut link, "/posts/");
    push_str(&mut link, p.slug.as_str());
    push_str(&mut link, ".html");
    assert(url@.subrange(0, url@.len() as int) == url@);
    assert(link@ =~= post_url(url@, p.slug@));
    let mut s: Vec<char> = Vec::new();
    push_str(&mut s, "    <item>\n");
    push_str(&mut s, "      <title>");
    push_xml(&mut s, &chars_of(p.title.as_str()));
    push_str(&mut s, "</title>\n");
    push_str(&mut s, "      <link>");
    push_xml(&mut s, &link);
    push_str(&mut s, "</link>\n");
    push_str(&mut s, "      <guid>");
    push_xml(&mut s, &link);
    push_str(&mut s, "</guid>\n");
    push_str(&mut s, "      <pubDate>");
    let date = rfc2822(p.date.as_str());
    push_str(&mut s, date.as_str());
    push_str(&mut s, "</pubDate>\n");
    push_str(&mut s, "      <description>");
    push_xml(&mut s, &chars_of(p.summary.as_str()));
    push_str(&mut s, "</description>\n");
    push_str(&mut s, "    </item>\n");
    assert(s@ =~= feed_item(url@, *p));
    s
}

/// Appends the feed document to `s`.
pub fn write_feed(s: &mut Vec<char>, config: &Config, posts: &[PostMeta])
    ensures
        final(s)@ == old(s)@ + feed_document(*config, posts@),
{
    let ghost start = s@;
    let url_chars = chars_of(config.url.as_str());
    let n: usize = trim_end_char_exec(&url_chars, '/');
    let mut url: Vec<char> = Vec::new();
    push_range(&mut url, &url_chars, 0, n);
    let ghost u = base_url(*config);
    assert(url@ == u);
    push_str(s, "<?xml version=\"1.0\" encoding=\"UTF-8\"?>\n");
    push_str(s, "<rss version=\"2.0\">\n  <channel>\n");
    push_str(s, "    <title>");
    push_xml(s, &chars_of(config.title.as_str()));
    push_str(s, "</title>\n");
    push_str(s, "    <link>");
    push_xml(s, &url);
    push_str(s, "</link>\n");
    push_str(s, "    <description>");
    push_xml(s, &chars_of(config.description.as_str()));
    push_str(s, "</description>\n");
    let ghost head = s@;
    let mut i: usize = 0;
    while i < posts.len()
        invariant
            i <= posts@.len(),
            url@ == u,
            s@ == head + feed_items(u, posts@.take(i as int)),
        decreases posts.len() - i,
    {
        let item = item_chars(&url, &posts[i]);
        assert(posts@.take(i + 1).drop_last() == posts@.take(i as int));
        push_range(s, &item, 0, item.len());
        assert(item@.subrange(0, item@.len() as int) == item@);
        assert(s@ =~= head + feed_items(u, posts@.take(i + 1)));
        i = i + 1;
    }
    assert(posts@.take(posts@.len() as int) == posts@);
    push_str(s, "  </channel>\n</rss>\n");
    assert(s@ =~= start + feed_document(*config, posts@));
}


/// The `<description>` element of an item whose post has `summary`.
pub open spec fn description_element(summary: Seq<char>) -> Seq<char> {
    "      <description>"@ + xml_escaped(summary) + "</description>\n"@
}

proof fn lemma_xml_no_markup(s: Seq<char>)
    ensures
        forall|j: int|
            0 <= j < xml_escaped(s).len() ==> #[trigger] xml_escaped(s)[j] != '<'
                && xml_escaped(s)[j] != '>',
    decreases s.len(),
{
    if s.len() > 0 {
        lemma_xml_no_markup(s.drop_last());
        let a = xml_escaped(s.drop_last());
        let b = xml_char(s.last());
        assert forall|j: int| 0 <= j < (a + b).len() implies #[trigger] (a + b)[j] != '<' && (a
            + b)[j] != '>' by {
            if j >= a.len() {
                assert((a + b)[j] == b[j - a.len()]);
            }
        }
    }
}

proof fn lemma_items_hold(url: Seq<char>, posts: Seq<PostMeta>, j: int) -> (k: int)
    requires
        0 <= j < posts.len(),
    ensures
        matches_at(feed_items(url, posts), k, feed_item(url, posts[j])),
    decreases posts.len(),
{
    let rest = posts.drop_last();
    let last = feed_item(url, posts.last());
    if j == posts.len() - 1 {
        lemma_matches_middle(feed_items(url, rest), last, seq![]);
        assert(feed_items(url, rest) + last + seq![] =~= feed_items(url, posts));
        feed_items(url, rest).len() as int
    } else {
        let k = lemma_items_hold(url, rest, j);
        assert(rest[j] == posts[j]);
        lemma_matches_widen(feed_items(url, rest), k, feed_item(url, posts[j]), seq![], last);
        assert(seq![] + feed_items(url, rest) + last =~= feed_items(url, posts));
        k
    }
}

proof fn lemma_item_reaches_document(
    config: Config,
    posts: Seq<PostMeta>,
    j: int,
    k: int,
    pat: Seq<char>,
)
    requires
        0 <= j < posts.len(),
        matches_at(feed_item(base_url(config), posts[j]), k, pat),
    ensures
        contains(feed_document(config, posts), pat),
{
    let url = base_url(config);
    let item = feed_item(url, posts[j]);
    let m = lemma_items_hold(url, posts, j);
    lemma_matches_nested(feed_items(url, posts), m, item, k, pat);
    let doc = feed_document(config, posts);
    let head = "<?xml version=\"1.0\" encoding=\"UTF-8\"?>\n"@ + "<rss version=\"2.0\">\n  <channel>\n"@
        + "    <title>"@ + xml_escaped(config.title@) + "</title>\n"@ + "    <link>"@
        + xml_escaped(url) + "</link>\n"@ + "    <description>"@ + xml_escaped(
        config.description@,
    ) + "</description>\n"@;
    assert(doc =~= head + feed_items(url, posts) + "  </channel>\n</rss>\n"@);
    lemma_matches_widen(feed_items(url, posts), m + k, pat, head, "  </channel>\n</rss>\n"@);
    lemma_contains_at(doc, head.len() + m + k, pat);
}

/// Each post's summary stands in the feed as the text of a `<description>`
/// element, XML-escaped: it holds no raw `<` or `>`, and decoding it gives
/// the summary back.
pub proof fn lemma_feed_describes_posts(config: Config, posts: Seq<PostMeta>, j: int)
    requires
        0 <= j < posts.len(),
    ensures
        contains(feed_document(config, posts), description_element(posts[j].summary@)),
        forall|m: int|
            0 <= m < xml_escaped(posts[j].summary@).len() ==> #[trigger] xml_escaped(
                posts[j].summary@,
            )[m] != '<' && xml_escaped(posts[j].summary@)[m] != '>',
        decoded(xml_escaped(posts[j].summary@)) == posts[j].summary@,
{
    let url = base_url(config);
    let p = posts[j];
    let item = feed_item(url, p);
    let el = description_element(p.summary@);
    let link = xml_escaped(post_url(url, p.slug@));
    let before = "    <item>\n"@ + "      <title>"@ + xml_escaped(p.title@) + "</title>\n"@
        + "      <link>"@ + link + "</link>\n"@ + "      <guid>"@ + link + "</guid>\n"@
        + "      <pubDate>"@ + pub_date(p.date@) + "</pubDate>\n"@;
    assert(item =~= before + el + "    </item>\n"@);
    lemma_matches_middle(before, el, "    </item>\n"@);
    lemma_item_reaches_document(config, posts, j, before.len() as int, el);
    lemma_xml_no_markup(p.summary@);
    lemma_decode_xml(p.summary@);
}

/// Each post has an item in the feed with its XML-escaped title, its
/// absolute URL (the site URL without trailing `/`, then `/posts/`, the slug
/// and `.html`) as both link and guid, and the RSS form of its date.
pub proof fn lemma_feed_lists_posts(config: Config, posts: Seq<PostMeta>, j: int)
    requires
        0 <= j < posts.len(),
    ensures
        contains(
            feed_document(config, posts),
            "      <title>"@ + xml_escaped(posts[j].title@) + "</title>\n"@,
        ),
        contains(
            feed_document(config, posts),
            "      <link>"@ + xml_escaped(
                trim_end_char(config.url@, '/') + "/posts/"@ + posts[j].slug@ + ".html"@,
            ) + "</link>\n"@,
        ),
        contains(
            feed_document(config, posts),
            "      <guid>"@ + xml_escaped(
                trim_end_char(config.url@, '/') + "/posts/"@ + posts[j].slug@ + ".html"@,
            ) + "</guid>\n"@,
        ),
        contains(
            feed_document(config, posts),
            "      <pubDate>"@ + pub_date(posts[j].date@) + "</pubDate>\n"@,
        ),
{
    let url = base_url(config);
    let p = posts[j];
    let item = feed_item(url, p);
    let link = xml_escaped(post_url(url, p.slug@));
    let title_el = "      <title>"@ + xml_escaped(p.title@) + "</title>\n"@;
    let link_el = "      <link>"@ + link + "</link>\n"@;
    let guid_el = "      <guid>"@ + link + "</guid>\n"@;
    let date_el = "      <pubDate>"@ + pub_date(p.date@) + "</pubDate>\n"@;
    let rest = "      <description>"@ + xml_escaped(p.summary@) + "</description>\n"@
        + "    </item>\n"@;
    let open = "    <item>\n"@;
    assert(item =~= open + title_el + (link_el + guid_el + date_el + rest));
    lemma_matches_middle(open, title_el, link_el + guid_el + date_el + rest);
    lemma_item_reaches_document(config, posts, j, open.len() as int, title_el);
    assert(item =~= (open + title_el) + link_el + (guid_el + date_el + rest));
    lemma_matches_middle(open + title_el, link_el, guid_el + date_el + rest);
    lemma_item_reaches_document(config, posts, j, (open + title_el).len() as int, link_el);
    assert(item =~= (open + title_el + link_el) + guid_el + (date_el + rest));
    lemma_matches_middle(open + title_el + link_el, guid_el, date_el + rest);
    lemma_item_reaches_document(config, posts, j, (open + title_el + link_el).len() as int, guid_el);
    assert(item =~= (open + title_el + link_el + guid_el) + date_el + rest);
    lemma_matches_middle(open + title_el + link_el + guid_el, date_el, rest);
    lemma_item_reaches_document(
        config,
        posts,
        j,
        (open + title_el + link_el + guid_el).len() as int,
        date_el,
    );
}

} // verus!
