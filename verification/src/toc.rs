//! Build-time table of contents and heading anchors for posts.
//!
//! Typst emits plain `<h2>`/`<h3>` (no ids), so each gets an `id` and a hover
//! anchor, and — when a post opts in and has at least two — a `<details>`
//! table of contents goes at the top of the article (expanded by default;
//! `collapsed: true` starts it folded). All zero-JS.

use vstd::prelude::*;

use crate::dates::{trim_chars, trimmed};
use crate::feed::{push_xml, xml_escaped};
use crate::strings::{
    chars_eq, chars_of, find, find_from, find_from_exec, insert_at, insert_at_exec, lemma_find_from,
    matches_at, matches_at_exec, push_range, push_str, string_of,
};
use crate::text::{decimal, decimal_chars, decode_chars, decoded, slug, slug_chars};

verus! {

/// Whether a post shows a table of contents, and its initial state.
#[derive(Clone, Copy, Debug)]
pub enum Toc {
    Off,
    Open,
    Collapsed,
}

impl Toc {
    /// `Some(open)` when a TOC is shown; `open` is its initial state.
    pub open spec fn shown(self) -> Option<bool> {
        match self {
            Toc::Off => None,
            Toc::Open => Some(true),
            Toc::Collapsed => Some(false),
        }
    }

    /// `Some(open)` when a TOC should be shown; `open` is its initial state.
    pub fn enabled(self) -> (res: Option<bool>)
        ensures
            res == self.shown(),
    {
        match self {
            Toc::Off => None,
            Toc::Open => Some(true),
            Toc::Collapsed => Some(false),
        }
    }
}

/// `<h2>` or `<h3>` starts at `i`.
pub open spec fn opens_heading(s: Seq<char>, i: int) -> bool {
    matches_at(s, i, seq!['<', 'h', '2', '>']) || matches_at(s, i, seq!['<', 'h', '3', '>'])
}

/// `</h2>` or `</h3>` starts at `k`.
pub open spec fn closes_heading(s: Seq<char>, k: int) -> bool {
    matches_at(s, k, seq!['<', '/', 'h', '2', '>']) || matches_at(
        s,
        k,
        seq!['<', '/', 'h', '3', '>'],
    )
}

/// The first `k >= j` at which a heading closes.
pub open spec fn first_close(s: Seq<char>, j: int) -> Option<int>
    decreases s.len() + 1 - j,
{
    if j < 0 || j + 5 > s.len() {
        None
    } else if closes_heading(s, j) {
        Some(j)
    } else {
        first_close(s, j + 1)
    }
}

/// A heading element starts at `i`; it closes at the returned index. This is
/// a match of `(?s)<h([23])>(.*?)</h[23]>`.
pub open spec fn heading_at(s: Seq<char>, i: int) -> Option<int> {
    if opens_heading(s, i) {
        first_close(s, i + 4)
    } else {
        None
    }
}

/// The heading elements of `s[p..]`, left to right without overlaps, as
/// (start, close) pairs.
pub open spec fn heading_spans(s: Seq<char>, p: int) -> Seq<(int, int)>
    decreases s.len() - p,
{
    if p < 0 || p >= s.len() {
        seq![]
    } else {
        match heading_at(s, p) {
            Some(k) => if p < k + 5 <= s.len() {
                seq![(p, k)] + heading_spans(s, k + 5)
            } else {
                seq![]
            },
            None => heading_spans(s, p + 1),
        }
    }
}

/// `s[p..]` with every tag (`<[^>]*>`) removed.
pub open spec fn untagged_from(s: Seq<char>, p: int) -> Seq<char>
    decreases s.len() - p,
{
    if p < 0 || p >= s.len() {
        seq![]
    } else if s[p] == '<' && find_from(s, seq!['>'], p + 1) is Some {
        let q = find_from(s, seq!['>'], p + 1)->0;
        if p < q < s.len() {
            untagged_from(s, q + 1)
        } else {
            seq![]
        }
    } else {
        seq![s[p]] + untagged_from(s, p + 1)
    }
}

/// A heading's inner markup reduced to plain text: tags removed, trimmed.
pub open spec fn stripped(s: Seq<char>) -> Seq<char> {
    trimmed(untagged_from(s, 0))
}

/// The plain text of the heading spanning `h`.
pub open spec fn heading_text(s: Seq<char>, h: (int, int)) -> Seq<char> {
    decoded(stripped(s.subrange(h.0 + 4, h.1)))
}

/// The id base of the `i`-th heading: the slug of its text, or
/// `section-{i+1}` when that is empty.
pub open spec fn heading_base(s: Seq<char>, h: (int, int), i: int) -> Seq<char> {
    let b = slug(heading_text(s, h));
    if b.len() == 0 {
        "section-"@ + decimal((i + 1) as nat)
    } else {
        b
    }
}

/// How many of the first `n` bases equal `x`.
pub open spec fn count_before(bases: Seq<Seq<char>>, x: Seq<char>, n: int) -> nat
    decreases n,
{
    if n <= 0 {
        0
    } else {
        count_before(bases, x, n - 1) + if bases[n - 1] == x {
            1nat
        } else {
            0nat
        }
    }
}

/// The id bases of all headings.
pub open spec fn heading_bases(s: Seq<char>, hs: Seq<(int, int)>) -> Seq<Seq<char>> {
    Seq::new(hs.len(), |i: int| heading_base(s, hs[i], i))
}

/// The id of the `i`-th heading: its base, with `-{n}` added when `n > 0`
/// earlier headings have the same base.
pub open spec fn heading_id(bases: Seq<Seq<char>>, i: int) -> Seq<char> {
    let c = count_before(bases, bases[i], i);
    if c == 0 {
        bases[i]
    } else {
        bases[i] + "-"@ + decimal(c)
    }
}

/// The ids of all headings.
pub open spec fn heading_ids(s: Seq<char>, hs: Seq<(int, int)>) -> Seq<Seq<char>> {
    let bases = heading_bases(s, hs);
    Seq::new(hs.len(), |i: int| heading_id(bases, i))
}

/// The heading spanning `h`, with its id and a hover anchor.
pub open spec fn anchored_heading(s: Seq<char>, h: (int, int), id: Seq<char>) -> Seq<char> {
    let level = s[h.0 + 2];
    seq!['<', 'h', level] + " id=\""@ + id + "\">"@ + s.subrange(h.0 + 4, h.1)
        + " <a class=\"anchor\" href=\"#"@ + id + "\">#</a></h"@ + seq![level, '>']
}

/// Where the text after the `n`-th heading begins.
pub open spec fn gap_start(hs: Seq<(int, int)>, n: int) -> int {
    if n <= 0 {
        0
    } else {
        hs[n - 1].1 + 5
    }
}

/// The rewritten text up to the end of the `n`-th heading.
pub open spec fn anchored_upto(
    s: Seq<char>,
    hs: Seq<(int, int)>,
    ids: Seq<Seq<char>>,
    n: int,
) -> Seq<char>
    decreases n,
{
    if n <= 0 {
        seq![]
    } else {
        anchored_upto(s, hs, ids, n - 1) + s.subrange(gap_start(hs, n - 1), hs[n - 1].0)
            + anchored_heading(s, hs[n - 1], ids[n - 1])
    }
}

/// `s` with every h2/h3 heading given its id and anchor.
pub open spec fn anchored(s: Seq<char>) -> Seq<char> {
    let hs = heading_spans(s, 0);
    anchored_upto(s, hs, heading_ids(s, hs), hs.len() as int) + s.subrange(
        gap_start(hs, hs.len() as int),
        s.len() as int,
    )
}

/// The TOC entries of the headings: level digit, plain text, id.
pub open spec fn toc_entries(s: Seq<char>) -> Seq<(char, Seq<char>, Seq<char>)> {
    let hs = heading_spans(s, 0);
    let ids = heading_ids(s, hs);
    Seq::new(hs.len(), |i: int| (s[hs[i].0 + 2], heading_text(s, hs[i]), ids[i]))
}

/// The link of one TOC entry.
pub open spec fn toc_link(e: (char, Seq<char>, Seq<char>)) -> Seq<char> {
    "<a href=\"#"@ + e.2 + "\">"@ + xml_escaped(e.1) + "</a>"@
}

/// The list items for the first `n` entries, and whether an item and a
/// nested list are still open. An h3 with no open item (a post that opens on
/// h3) is treated as top-level, so a `<ul>` never sits directly in a `<ul>`.
pub open spec fn toc_items(es: Seq<(char, Seq<char>, Seq<char>)>, n: int) -> (Seq<char>, bool, bool)
    decreases n,
{
    if n <= 0 {
        (seq![], false, false)
    } else {
        let (out, li_open, sub_open) = toc_items(es, n - 1);
        let e = es[n - 1];
        if e.0 == '2' || !li_open {
            (
                out + (if sub_open {
                    "</ul>"@
                } else {
                    seq![]
                }) + (if li_open {
                    "</li>"@
                } else {
                    seq![]
                }) + "<li>"@ + toc_link(e),
                true,
                false,
            )
        } else {
            (
                out + (if !sub_open {
                    "<ul>"@
                } else {
                    seq![]
                }) + "<li>"@ + toc_link(e) + "</li>"@,
                true,
                true,
            )
        }
    }
}

/// The `<details>` table of contents for the entries.
pub open spec fn toc_html(es: Seq<(char, Seq<char>, Seq<char>)>, open: bool) -> Seq<char> {
    let (items, li_open, sub_open) = toc_items(es, es.len() as int);
    (if open {
        "<details class=\"toc\" open><summary>Contents</summary><ul>"@
    } else {
        "<details class=\"toc\"><summary>Contents</summary><ul>"@
    }) + items + (if sub_open {
        "</ul>"@
    } else {
        seq![]
    }) + (if li_open {
        "</li>"@
    } else {
        seq![]
    }) + "</ul></details>"@
}

/// Where the TOC goes: just after the post-meta line's `</p>`, else before the
/// first anchored heading (h2 or h3, whichever comes first).
pub open spec fn toc_position(html: Seq<char>) -> Option<int> {
    let after_meta = match find(html, "class=\"post-meta\""@) {
        Some(i) => match find_from(html, "</p>"@, i) {
            Some(e) => Some(e + 4),
            None => None,
        },
        None => None,
    };
    match after_meta {
        Some(p) => Some(p),
        None => match (find(html, "<h2 id=\""@), find(html, "<h3 id=\""@)) {
            (Some(a), Some(b)) => Some(
                if a <= b {
                    a
                } else {
                    b
                },
            ),
            (Some(a), None) => Some(a),
            (None, b) => b,
        },
    }
}

/// A post's HTML with heading ids and anchors, and the table of contents
/// when `toc` shows one and there are at least two headings.
pub open spec fn processed(s: Seq<char>, toc: Toc) -> Seq<char> {
    let a = anchored(s);
    match toc.shown() {
        Some(open) => if heading_spans(s, 0).len() >= 2 {
            match toc_position(a) {
                Some(pos) => insert_at(a, pos, toc_html(toc_entries(s), open)),
                None => a,
            }
        } else {
            a
        },
        None => a,
    }
}

/// Whether a heading closes at `k`.
fn closes_heading_exec(s: &Vec<char>, k: usize) -> (res: bool)
    ensures
        res == closes_heading(s@, k as int),
{
    let c2: Vec<char> = vec!['<', '/', 'h', '2', '>'];
    let c3: Vec<char> = vec!['<', '/', 'h', '3', '>'];
    matches_at_exec(s, k, &c2) || matches_at_exec(s, k, &c3)
}

/// The heading that starts at `i`, if one does: where it closes.
fn heading_at_exec(s: &Vec<char>, i: usize) -> (res: Option<usize>)
    ensures
        res matches Some(k) ==> heading_at(s@, i as int) == Some(k as int) && i + 4 <= k && k + 5
            <= s@.len(),
        res is None ==> heading_at(s@, i as int) is None,
{
    let o2: Vec<char> = vec!['<', 'h', '2', '>'];
    let o3: Vec<char> = vec!['<', 'h', '3', '>'];
    if !(matches_at_exec(s, i, &o2) || matches_at_exec(s, i, &o3)) {
        return None;
    }
    assert(i + 4 <= s.len());
    let mut j = i + 4;
    loop
        invariant
            i + 4 <= j <= s@.len(),
            opens_heading(s@, i as int),
            first_close(s@, i + 4) == first_close(s@, j as int),
        decreases s@.len() - j,
    {
        if s.len() - j < 5 {
            return None;
        }
        if closes_heading_exec(s, j) {
            return Some(j);
        }
        j = j + 1;
    }
}

proof fn lemma_untagged_step(s: Seq<char>, p: int)
    requires
        0 <= p < s.len(),
    ensures
        s[p] == '<' && find_from(s, seq!['>'], p + 1) is Some ==> {
            let q = find_from(s, seq!['>'], p + 1)->0;
            &&& p < q < s.len()
            &&& untagged_from(s, p) == untagged_from(s, q + 1)
        },
{
    lemma_find_from(s, seq!['>'], p + 1);
}

/// Strip inline tags from a heading's inner HTML to get its plain text.
pub fn strip_tags(s: &str) -> (res: String)
    ensures
        res@ == stripped(s@),
{
    string_of(&strip_tag_chars(&chars_of(s)))
}

/// `strip_tags` on characters.
fn strip_tag_chars(s: &Vec<char>) -> (res: Vec<char>)
    ensures
        res@ == stripped(s@),
{
    let gt: Vec<char> = vec!['>'];
    let mut out: Vec<char> = Vec::new();
    let mut p: usize = 0;
    while p < s.len()
        invariant
            p <= s@.len(),
            gt@ == seq!['>'],
            out@ + untagged_from(s@, p as int) == untagged_from(s@, 0),
        decreases s.len() - p,
    {
        proof {
            lemma_untagged_step(s@, p as int);
        }
        let close = if s[p] == '<' {
            find_from_exec(s, &gt, p + 1)
        } else {
            None
        };
        match close {
            Some(q) => {
                p = q + 1;
            },
            None => {
                out.push(s[p]);
                p = p + 1;
            },
        }
    }
    assert(out@ + untagged_from(s@, p as int) == out@);
    let (lo, hi): (usize, usize) = trim_chars(&out);
    let mut t: Vec<char> = Vec::new();
    push_range(&mut t, &out, lo, hi);
    t
}

/// How many of `bases[..n]` equal `x`.
fn count_equal(bases: &Vec<Vec<char>>, x: &Vec<char>, n: usize) -> (res: usize)
    requires
        n <= bases@.len(),
    ensures
        res == count_before(bases@.map_values(|b: Vec<char>| b@), x@, n as int),
{
    let ghost bs = bases@.map_values(|b: Vec<char>| b@);
    let mut c: usize = 0;
    let mut j: usize = 0;
    while j < n
        invariant
            j <= n <= bases@.len(),
            bs == bases@.map_values(|b: Vec<char>| b@),
            c == count_before(bs, x@, j as int),
            c <= j,
        decreases n - j,
    {
        if chars_eq(&bases[j], x) {
            c = c + 1;
        }
        j = j + 1;
    }
    c
}

/// A heading's plain text, as characters.
fn heading_text_chars(s: &Vec<char>, i: usize, k: usize) -> (res: Vec<char>)
    requires
        i + 4 <= k <= s@.len(),
    ensures
        res@ == heading_text(s@, (i as int, k as int)),
{
    let mut inner: Vec<char> = Vec::new();
    push_range(&mut inner, s, i + 4, k);
    decode_chars(&strip_tag_chars(&inner))
}

/// Appends the anchored heading to `out`.
fn push_anchored(out: &mut Vec<char>, s: &Vec<char>, i: usize, k: usize, id: &Vec<char>)
    requires
        i + 4 <= k <= s@.len(),
    ensures
        final(out)@ == old(out)@ + anchored_heading(s@, (i as int, k as int), id@),
{
    let ghost start = out@;
    let level = s[i + 2];
    out.push('<');
    out.push('h');
    out.push(level);
    push_str(out, " id=\"");
    push_range(out, id, 0, id.len());
    push_str(out, "\">");
    push_range(out, s, i + 4, k);
    push_str(out, " <a class=\"anchor\" href=\"#");
    push_range(out, id, 0, id.len());
    push_str(out, "\">#</a></h");
    out.push(level);
    out.push('>');
    assert(id@.subrange(0, id@.len() as int) == id@);
    assert(out@ =~= start + anchored_heading(s@, (i as int, k as int), id@));
}

/// One heading for the table of contents: level digit, plain text, id.
pub struct TocEntry {
    pub level: char,
    pub text: Vec<char>,
    pub id: Vec<char>,
}

impl TocEntry {
    pub open spec fn view(self) -> (char, Seq<char>, Seq<char>) {
        (self.level, self.text@, self.id@)
    }
}

/// The entries' views.
pub open spec fn entries_view(es: Seq<TocEntry>) -> Seq<(char, Seq<char>, Seq<char>)> {
    es.map_values(|e: TocEntry| e.view())
}

proof fn lemma_spans_step(s: Seq<char>, p: int)
    requires
        0 <= p < s.len(),
    ensures
        heading_at(s, p) matches Some(k) ==> (p < k + 5 <= s.len() ==> heading_spans(s, p) == seq![
            (p, k),
        ] + heading_spans(s, k + 5)),
        heading_at(s, p) is None ==> heading_spans(s, p) == heading_spans(s, p + 1),
{
}

/// Ids and anchors for every h2/h3 heading of `s`, with the TOC entries.
fn anchor_headings(s: &Vec<char>) -> (res: (Vec<char>, Vec<TocEntry>))
    ensures
        res.0@ == anchored(s@),
        entries_view(res.1@) == toc_entries(s@),
{
    let ghost hs = heading_spans(s@, 0);
    let ghost ids = heading_ids(s@, hs);
    let ghost bases_spec = heading_bases(s@, hs);
    let mut out: Vec<char> = Vec::new();
    let mut entries: Vec<TocEntry> = Vec::new();
    let mut bases: Vec<Vec<char>> = Vec::new();
    let mut gap: usize = 0;
    let mut p: usize = 0;
    let mut n: usize = 0;
    while p < s.len()
        invariant
            gap <= p <= s@.len(),
            n <= p,
            s@.len() == s.len(),
            n <= hs.len(),
            hs == heading_spans(s@, 0),
            ids == heading_ids(s@, hs),
            bases_spec == heading_bases(s@, hs),
            hs == hs.take(n as int) + heading_spans(s@, p as int),
            gap == gap_start(hs, n as int),
            out@ == anchored_upto(s@, hs, ids, n as int) + s@.subrange(gap as int, p as int),
            bases@.len() == n,
            forall|m: int| 0 <= m < n ==> (#[trigger] bases@[m])@ == bases_spec[m],
            entries@.len() == n,
            forall|m: int| 0 <= m < n ==> (#[trigger] entries@[m]).view() == toc_entries(s@)[m],
        decreases s.len() - p,
    {
        proof {
            lemma_spans_step(s@, p as int);
        }
        match heading_at_exec(s, p) {
            Some(k) => {
                assert(hs.take(n as int) + heading_spans(s@, p as int) == hs.take(n as int) + (seq![
                    (p as int, k as int),
                ] + heading_spans(s@, k + 5)));
                assert(hs[n as int] == (p as int, k as int));
                let text = heading_text_chars(s, p, k);
                let b = slug_chars(&text);
                let base = if b.len() == 0 {
                    let mut sec: Vec<char> = Vec::new();
                    push_str(&mut sec, "section-");
                    let num = decimal_chars(n + 1);
                    push_range(&mut sec, &num, 0, num.len());
                    assert(num@.subrange(0, num@.len() as int) == num@);
                    sec
                } else {
                    b
                };
                assert(base@ == bases_spec[n as int]);
                let c: usize = count_equal(&bases, &base, n);
                let ghost bs = bases@.map_values(|v: Vec<char>| v@);
                assert(bs.take(n as int) =~= bases_spec.take(n as int));
                proof {
                    lemma_count_prefix(bs, bases_spec, base@, n as int);
                }
                let id = if c == 0 {
                    let mut v: Vec<char> = Vec::new();
                    push_range(&mut v, &base, 0, base.len());
                    assert(base@.subrange(0, base@.len() as int) == base@);
                    v
                } else {
                    let mut v: Vec<char> = Vec::new();
                    push_range(&mut v, &base, 0, base.len());
                    push_str(&mut v, "-");
                    let num = decimal_chars(c);
                    push_range(&mut v, &num, 0, num.len());
                    assert(base@.subrange(0, base@.len() as int) == base@);
                    assert(num@.subrange(0, num@.len() as int) == num@);
                    v
                };
                assert(id@ == ids[n as int]);
                push_anchored(&mut out, s, p, k, &id);
                assert(out@ =~= anchored_upto(s@, hs, ids, n + 1) + s@.subrange(k + 5, k + 5));
                let level = s[p + 2];
                entries.push(TocEntry { level, text, id });
                bases.push(base);
                proof {
                    let old_n = n as int;
                    assert(hs.take(old_n + 1) =~= hs.take(old_n) + seq![(p as int, k as int)]);
                    assert(hs =~= hs.take(old_n + 1) + heading_spans(s@, k + 5));
                    assert(bases@.map_values(|v: Vec<char>| v@).take(old_n) =~= bs.take(old_n));
                }
                gap = k + 5;
                p = k + 5;
                n = n + 1;
            },
            None => {
                assert(s@.subrange(gap as int, p + 1) == s@.subrange(gap as int, p as int).push(
                    s@[p as int],
                ));
                out.push(s[p]);
                p = p + 1;
            },
        }
    }
    assert(hs.take(n as int) =~= hs) by {
        assert(heading_spans(s@, p as int) =~= seq![]);
    }
    (out, entries)
}

/// Appends the link of a TOC entry to `out`.
fn push_toc_link(out: &mut Vec<char>, e: &TocEntry)
    ensures
        final(out)@ == old(out)@ + toc_link(e.view()),
{
    let ghost start = out@;
    push_str(out, "<a href=\"#");
    push_range(out, &e.id, 0, e.id.len());
    push_str(out, "\">");
    push_xml(out, &e.text);
    push_str(out, "</a>");
    assert(e.id@.subrange(0, e.id@.len() as int) == e.id@);
    assert(out@ =~= start + toc_link(e.view()));
}

/// The `<details>` table of contents for the headings.
fn build_toc(headings: &Vec<TocEntry>, open: bool) -> (res: Vec<char>)
    ensures
        res@ == toc_html(entries_view(headings@), open),
{
    let ghost es = entries_view(headings@);
    let mut s: Vec<char> = Vec::new();
    if open {
        push_str(&mut s, "<details class=\"toc\" open><summary>Contents</summary><ul>");
    } else {
        push_str(&mut s, "<details class=\"toc\"><summary>Contents</summary><ul>");
    }
    let ghost prefix = s@;
    let mut li_open = false;
    let mut sub_open = false;
    let mut i: usize = 0;
    while i < headings.len()
        invariant
            i <= headings@.len(),
            es == entries_view(headings@),
            (s@, li_open, sub_open) == (prefix + toc_items(es, i as int).0, toc_items(
                es,
                i as int,
            ).1, toc_items(es, i as int).2),
        decreases headings.len() - i,
    {
        let e = &headings[i];
        assert(es[i as int] == e.view());
        if e.level == '2' || !li_open {
            if sub_open {
                push_str(&mut s, "</ul>");
                sub_open = false;
            }
            if li_open {
                push_str(&mut s, "</li>");
            }
            push_str(&mut s, "<li>");
            push_toc_link(&mut s, e);
            li_open = true;
        } else {
            if !sub_open {
                push_str(&mut s, "<ul>");
                sub_open = true;
            }
            push_str(&mut s, "<li>");
            push_toc_link(&mut s, e);
            push_str(&mut s, "</li>");
        }
        assert(s@ =~= prefix + toc_items(es, i + 1).0);
        i = i + 1;
    }
    if sub_open {
        push_str(&mut s, "</ul>");
    }
    if li_open {
        push_str(&mut s, "</li>");
    }
    push_str(&mut s, "</ul></details>");
    assert(s@ =~= toc_html(es, open));
    s
}

/// Where the TOC goes: at the top of the article, just after the post-meta
/// line — not buried below the intro paragraph. Falls back to before the
/// first heading (h2 or h3) if there's no post meta.
fn toc_insert_pos(html: &Vec<char>) -> (res: Option<usize>)
    ensures
        res matches Some(p) ==> toc_position(html@) == Some(p as int) && p <= html@.len(),
        res is None ==> toc_position(html@) is None,
{
    proof {
        reveal_strlit("class=\"post-meta\"");
        reveal_strlit("</p>");
        reveal_strlit("<h2 id=\"");
        reveal_strlit("<h3 id=\"");
    }
    let meta = find_from_exec(html, &chars_of("class=\"post-meta\""), 0);
    if let Some(i) = meta {
        proof {
            lemma_find_from(html@, "class=\"post-meta\""@, 0);
        }
        let end = find_from_exec(html, &chars_of("</p>"), i);
        if let Some(e) = end {
            proof {
                lemma_find_from(html@, "</p>"@, i as int);
            }
            assert(e + 4 <= html.len());
            return Some(e + 4);
        }
    }
    proof {
        lemma_find_from(html@, "<h2 id=\""@, 0);
        lemma_find_from(html@, "<h3 id=\""@, 0);
    }
    let h2 = find_from_exec(html, &chars_of("<h2 id=\""), 0);
    let h3 = find_from_exec(html, &chars_of("<h3 id=\""), 0);
    match (h2, h3) {
        (Some(a), Some(b)) => Some(
            if a <= b {
                a
            } else {
                b
            },
        ),
        (Some(a), None) => Some(a),
        (None, b) => b,
    }
}

/// Add ids + hover anchors to a post's h2/h3 headings. When `toc` enables it
/// and there are two or more headings, also inject a TOC at the top of the
/// article. Only h2/h3 are touched.
pub fn process(html: &str, toc: Toc) -> (res: String)
    ensures
        res@ == processed(html@, toc),
{
    let s = chars_of(html);
    let (result, headings) = anchor_headings(&s);
    if let Some(open) = toc.enabled() {
        if headings.len() >= 2 {
            let toc_html = build_toc(&headings, open);
            if let Some(pos) = toc_insert_pos(&result) {
                let out = insert_at_exec(&result, pos, &toc_html);
                return string_of(&out);
            }
        }
    }
    string_of(&result)
}

/// Equal prefixes count equal occurrences.
proof fn lemma_count_prefix(a: Seq<Seq<char>>, b: Seq<Seq<char>>, x: Seq<char>, n: int)
    requires
        0 <= n <= a.len(),
        n <= b.len(),
        a.take(n) == b.take(n),
    ensures
        count_before(a, x, n) == count_before(b, x, n),
    decreases n,
{
    if n > 0 {
        assert(a.take(n - 1) =~= a.take(n).take(n - 1));
        assert(b.take(n - 1) =~= b.take(n).take(n - 1));
        assert(a[n - 1] == a.take(n)[n - 1]);
        assert(b[n - 1] == b.take(n)[n - 1]);
        lemma_count_prefix(a, b, x, n - 1);
    }
}

/// The table of contents is opt-in but anchors are not: with the TOC off, or
/// with fewer than two headings, a post gets exactly its anchored headings.
pub proof fn lemma_toc_is_opt_in(s: Seq<char>, toc: Toc)
    ensures
        processed(s, Toc::Off) == anchored(s),
        heading_spans(s, 0).len() < 2 ==> processed(s, toc) == anchored(s),
{
}

/// A piece of the table of contents' list: one of its tags, or the link of
/// the entry with the given index.
pub enum TocPiece {
    OpenList,
    CloseList,
    OpenItem,
    CloseItem,
    Link(nat),
}

/// The text of one piece.
pub open spec fn piece_text(es: Seq<(char, Seq<char>, Seq<char>)>, p: TocPiece) -> Seq<char> {
    match p {
        TocPiece::OpenList => "<ul>"@,
        TocPiece::CloseList => "</ul>"@,
        TocPiece::OpenItem => "<li>"@,
        TocPiece::CloseItem => "</li>"@,
        TocPiece::Link(k) => toc_link(es[k as int]),
    }
}

/// The text of a run of pieces.
pub open spec fn render_pieces(es: Seq<(char, Seq<char>, Seq<char>)>, ps: Seq<TocPiece>) -> Seq<
    char,
>
    decreases ps.len(),
{
    if ps.len() == 0 {
        seq![]
    } else {
        render_pieces(es, ps.drop_last()) + piece_text(es, ps.last())
    }
}

/// Closing what is open inside the outer list: the nested list, then the
/// item.
pub open spec fn close_open(ps: Seq<TocPiece>, li_open: bool, sub_open: bool) -> Seq<TocPiece> {
    let a = if sub_open {
        ps.push(TocPiece::CloseList)
    } else {
        ps
    };
    if li_open {
        a.push(TocPiece::CloseItem)
    } else {
        a
    }
}

/// A top-level entry: what is open is closed, and a new item holds its link.
pub open spec fn top_entry(ps: Seq<TocPiece>, li_open: bool, sub_open: bool, k: nat) -> Seq<
    TocPiece,
> {
    close_open(ps, li_open, sub_open).push(TocPiece::OpenItem).push(TocPiece::Link(k))
}

/// A nested entry: an item of its own in the nested list, opened if needed.
pub open spec fn sub_entry(ps: Seq<TocPiece>, sub_open: bool, k: nat) -> Seq<TocPiece> {
    let a = if !sub_open {
        ps.push(TocPiece::OpenList)
    } else {
        ps
    };
    a.push(TocPiece::OpenItem).push(TocPiece::Link(k)).push(TocPiece::CloseItem)
}

/// The pieces of the outer list for the first `n` entries (its `<ul>`
/// first), and whether an item and a nested list are still open.
pub open spec fn toc_pieces(es: Seq<(char, Seq<char>, Seq<char>)>, n: int) -> (
    Seq<TocPiece>,
    bool,
    bool,
)
    decreases n,
{
    if n <= 0 {
        (seq![TocPiece::OpenList], false, false)
    } else {
        let (ps, li_open, sub_open) = toc_pieces(es, n - 1);
        if es[n - 1].0 == '2' || !li_open {
            (top_entry(ps, li_open, sub_open, (n - 1) as nat), true, false)
        } else {
            (sub_entry(ps, sub_open, (n - 1) as nat), true, true)
        }
    }
}

/// All pieces of the table of contents' list, closed at the end.
pub open spec fn toc_all_pieces(es: Seq<(char, Seq<char>, Seq<char>)>) -> Seq<TocPiece> {
    let (ps, li_open, sub_open) = toc_pieces(es, es.len() as int);
    close_open(ps, li_open, sub_open).push(TocPiece::CloseList)
}

/// Reading one piece against the stack of open elements (`true` an item,
/// `false` a list): a list opens at the top or inside an item, an item only
/// inside a list, a link only inside an item, and a tag closes only the
/// element on top. `None` when the piece breaks these rules.
pub open spec fn nest_step(st: Seq<bool>, p: TocPiece) -> Option<Seq<bool>> {
    match p {
        TocPiece::OpenList => if st.len() == 0 || st.last() {
            Some(st.push(false))
        } else {
            None
        },
        TocPiece::OpenItem => if st.len() > 0 && !st.last() {
            Some(st.push(true))
        } else {
            None
        },
        TocPiece::Link(_) => if st.len() > 0 && st.last() {
            Some(st)
        } else {
            None
        },
        TocPiece::CloseItem => if st.len() > 0 && st.last() {
            Some(st.drop_last())
        } else {
            None
        },
        TocPiece::CloseList => if st.len() > 0 && !st.last() {
            Some(st.drop_last())
        } else {
            None
        },
    }
}

/// The stack of open elements after reading `ps` from the start.
pub open spec fn nest(ps: Seq<TocPiece>) -> Option<Seq<bool>>
    decreases ps.len(),
{
    if ps.len() == 0 {
        Some(seq![])
    } else {
        match nest(ps.drop_last()) {
            Some(st) => nest_step(st, ps.last()),
            None => None,
        }
    }
}

/// The pieces open and close their elements properly nested, and leave none
/// open.
pub open spec fn well_nested(ps: Seq<TocPiece>) -> bool {
    nest(ps) == Some(Seq::<bool>::empty())
}

/// The entry indices of the links among `ps`, in order.
pub open spec fn links_of(ps: Seq<TocPiece>) -> Seq<nat>
    decreases ps.len(),
{
    if ps.len() == 0 {
        seq![]
    } else {
        match ps.last() {
            TocPiece::Link(k) => links_of(ps.drop_last()).push(k),
            _ => links_of(ps.drop_last()),
        }
    }
}

/// The open elements while the TOC's list is being written: the outer list,
/// an item, a nested list.
spec fn open_stack(li_open: bool, sub_open: bool) -> Seq<bool> {
    if sub_open {
        seq![false, true, false]
    } else if li_open {
        seq![false, true]
    } else {
        seq![false]
    }
}

proof fn lemma_push_piece(es: Seq<(char, Seq<char>, Seq<char>)>, ps: Seq<TocPiece>, p: TocPiece)
    ensures
        render_pieces(es, ps.push(p)) == render_pieces(es, ps) + piece_text(es, p),
        nest(ps.push(p)) == (match nest(ps) {
            Some(st) => nest_step(st, p),
            None => None,
        }),
        links_of(ps.push(p)) == (match p {
            TocPiece::Link(k) => links_of(ps).push(k),
            _ => links_of(ps),
        }),
{
    assert(ps.push(p).drop_last() =~= ps);
}

proof fn lemma_close_open(
    es: Seq<(char, Seq<char>, Seq<char>)>,
    ps: Seq<TocPiece>,
    li_open: bool,
    sub_open: bool,
)
    requires
        sub_open ==> li_open,
        nest(ps) == Some(open_stack(li_open, sub_open)),
    ensures
        render_pieces(es, close_open(ps, li_open, sub_open)) == render_pieces(es, ps) + (
        if sub_open {
            "</ul>"@
        } else {
            seq![]
        }) + (if li_open {
            "</li>"@
        } else {
            seq![]
        }),
        nest(close_open(ps, li_open, sub_open)) == Some(open_stack(false, false)),
        links_of(close_open(ps, li_open, sub_open)) == links_of(ps),
{
    let a = if sub_open {
        ps.push(TocPiece::CloseList)
    } else {
        ps
    };
    if sub_open {
        lemma_push_piece(es, ps, TocPiece::CloseList);
        assert(open_stack(li_open, sub_open).drop_last() =~= open_stack(true, false));
    } else {
        assert(render_pieces(es, ps) + seq![] =~= render_pieces(es, ps));
    }
    if li_open {
        lemma_push_piece(es, a, TocPiece::CloseItem);
        assert(open_stack(true, false).drop_last() =~= open_stack(false, false));
    } else {
        assert(render_pieces(es, a) + seq![] =~= render_pieces(es, a));
    }
    assert(render_pieces(es, close_open(ps, li_open, sub_open)) =~= render_pieces(es, ps) + (
    if sub_open {
        "</ul>"@
    } else {
        seq![]
    }) + (if li_open {
        "</li>"@
    } else {
        seq![]
    }));
}

proof fn lemma_top_entry(
    es: Seq<(char, Seq<char>, Seq<char>)>,
    ps: Seq<TocPiece>,
    li_open: bool,
    sub_open: bool,
    k: nat,
)
    requires
        sub_open ==> li_open,
        nest(ps) == Some(open_stack(li_open, sub_open)),
    ensures
        render_pieces(es, top_entry(ps, li_open, sub_open, k)) == render_pieces(es, ps) + (
        if sub_open {
            "</ul>"@
        } else {
            seq![]
        }) + (if li_open {
            "</li>"@
        } else {
            seq![]
        }) + "<li>"@ + toc_link(es[k as int]),
        nest(top_entry(ps, li_open, sub_open, k)) == Some(open_stack(true, false)),
        links_of(top_entry(ps, li_open, sub_open, k)) == links_of(ps).push(k),
{
    let b = close_open(ps, li_open, sub_open);
    lemma_close_open(es, ps, li_open, sub_open);
    lemma_push_piece(es, b, TocPiece::OpenItem);
    lemma_push_piece(es, b.push(TocPiece::OpenItem), TocPiece::Link(k));
    assert(open_stack(false, false).push(true) =~= open_stack(true, false));
}

proof fn lemma_sub_entry(
    es: Seq<(char, Seq<char>, Seq<char>)>,
    ps: Seq<TocPiece>,
    sub_open: bool,
    k: nat,
)
    requires
        nest(ps) == Some(open_stack(true, sub_open)),
    ensures
        render_pieces(es, sub_entry(ps, sub_open, k)) == render_pieces(es, ps) + (if !sub_open {
            "<ul>"@
        } else {
            seq![]
        }) + "<li>"@ + toc_link(es[k as int]) + "</li>"@,
        nest(sub_entry(ps, sub_open, k)) == Some(open_stack(true, true)),
        links_of(sub_entry(ps, sub_open, k)) == links_of(ps).push(k),
{
    let a = if !sub_open {
        ps.push(TocPiece::OpenList)
    } else {
        ps
    };
    if !sub_open {
        lemma_push_piece(es, ps, TocPiece::OpenList);
        assert(open_stack(true, false).push(false) =~= open_stack(true, true));
    } else {
        assert(render_pieces(es, ps) + seq![] =~= render_pieces(es, ps));
    }
    lemma_push_piece(es, a, TocPiece::OpenItem);
    lemma_push_piece(es, a.push(TocPiece::OpenItem), TocPiece::Link(k));
    lemma_push_piece(es, a.push(TocPiece::OpenItem).push(TocPiece::Link(k)), TocPiece::CloseItem);
    assert(open_stack(true, true).push(true).drop_last() =~= open_stack(true, true));
}

proof fn lemma_toc_pieces(es: Seq<(char, Seq<char>, Seq<char>)>, n: int)
    requires
        0 <= n <= es.len(),
    ensures
        ({
            let (ps, li_open, sub_open) = toc_pieces(es, n);
            &&& render_pieces(es, ps) == "<ul>"@ + toc_items(es, n).0
            &&& li_open == toc_items(es, n).1
            &&& sub_open == toc_items(es, n).2
            &&& sub_open ==> li_open
            &&& nest(ps) == Some(open_stack(li_open, sub_open))
            &&& links_of(ps) == Seq::new(n as nat, |k: int| k as nat)
        }),
    decreases n,
{
    if n == 0 {
        let ps = seq![TocPiece::OpenList];
        lemma_push_piece(es, Seq::<TocPiece>::empty(), TocPiece::OpenList);
        assert(Seq::<TocPiece>::empty().push(TocPiece::OpenList) == ps);
        assert(open_stack(false, false) =~= Seq::<bool>::empty().push(false));
        assert(links_of(ps) =~= Seq::new(0, |k: int| k as nat));
        assert(render_pieces(es, ps) =~= "<ul>"@ + toc_items(es, n).0);
    } else {
        lemma_toc_pieces(es, n - 1);
        let (ps, li_open, sub_open) = toc_pieces(es, n - 1);
        let items = toc_items(es, n - 1).0;
        let k = (n - 1) as nat;
        assert(Seq::new(k, |j: int| j as nat).push(k) =~= Seq::new(n as nat, |j: int| j as nat));
        if es[n - 1].0 == '2' || !li_open {
            lemma_top_entry(es, ps, li_open, sub_open, k);
            assert(render_pieces(es, top_entry(ps, li_open, sub_open, k)) =~= "<ul>"@
                + toc_items(es, n).0);
        } else {
            lemma_sub_entry(es, ps, sub_open, k);
            assert(render_pieces(es, sub_entry(ps, sub_open, k)) =~= "<ul>"@ + toc_items(
                es,
                n,
            ).0);
        }
    }
}

/// The table of contents is a `<details>` element around one list whose tags
/// are properly nested and all closed (a nested list only ever opens inside
/// an item, so no `<ul>` sits directly in a `<ul>`), and whose links are
/// those of the entries, one each, in order.
pub proof fn lemma_toc_structure(es: Seq<(char, Seq<char>, Seq<char>)>, open: bool)
    ensures
        toc_html(es, open) == (if open {
            "<details class=\"toc\" open><summary>Contents</summary>"@
        } else {
            "<details class=\"toc\"><summary>Contents</summary>"@
        }) + render_pieces(es, toc_all_pieces(es)) + "</details>"@,
        well_nested(toc_all_pieces(es)),
        links_of(toc_all_pieces(es)) == Seq::new(es.len(), |k: int| k as nat),
{
    reveal_strlit("<details class=\"toc\" open><summary>Contents</summary><ul>");
    reveal_strlit("<details class=\"toc\" open><summary>Contents</summary>");
    reveal_strlit("<details class=\"toc\"><summary>Contents</summary><ul>");
    reveal_strlit("<details class=\"toc\"><summary>Contents</summary>");
    reveal_strlit("</ul></details>");
    reveal_strlit("</details>");
    reveal_strlit("<ul>");
    reveal_strlit("</ul>");
    let n = es.len() as int;
    lemma_toc_pieces(es, n);
    let (ps, li_open, sub_open) = toc_pieces(es, n);
    let b = close_open(ps, li_open, sub_open);
    lemma_close_open(es, ps, li_open, sub_open);
    lemma_push_piece(es, b, TocPiece::CloseList);
    assert(open_stack(false, false).drop_last() =~= Seq::<bool>::empty());
    assert("<details class=\"toc\" open><summary>Contents</summary><ul>"@
        =~= "<details class=\"toc\" open><summary>Contents</summary>"@ + "<ul>"@);
    assert("<details class=\"toc\"><summary>Contents</summary><ul>"@
        =~= "<details class=\"toc\"><summary>Contents</summary>"@ + "<ul>"@);
    assert("</ul></details>"@ =~= "</ul>"@ + "</details>"@);
    assert(toc_html(es, open) =~= (if open {
        "<details class=\"toc\" open><summary>Contents</summary>"@
    } else {
        "<details class=\"toc\"><summary>Contents</summary>"@
    }) + render_pieces(es, toc_all_pieces(es)) + "</details>"@);
}

proof fn lemma_decimal_len(n: nat)
    ensures
        decimal(n).len() >= 1,
        n >= 10 ==> decimal(n).len() >= 2,
    decreases n,
{
    if n >= 10 {
        lemma_decimal_len(n / 10);
    }
}

/// Different numbers have different decimal forms.
pub proof fn lemma_decimal_injective(n: nat, m: nat)
    ensures
        decimal(n) == decimal(m) ==> n == m,
    decreases n,
{
    lemma_decimal_len(n);
    lemma_decimal_len(m);
    if decimal(n) == decimal(m) {
        if n < 10 && m < 10 {
            assert(decimal(n)[0] == decimal(m)[0]);
            assert((((48 + n) as u8) as char) as u32 == 48 + n);
            assert((((48 + m) as u8) as char) as u32 == 48 + m);
        } else if n >= 10 && m >= 10 {
            assert(decimal(n).last() == decimal(m).last());
            assert(decimal(n).drop_last() == decimal(n / 10));
            assert(decimal(m).drop_last() == decimal(m / 10));
            lemma_decimal_injective(n / 10, m / 10);
            assert((((48 + n % 10) as u8) as char) as u32 == 48 + n % 10);
            assert((((48 + m % 10) as u8) as char) as u32 == 48 + m % 10);
        }
    }
}

proof fn lemma_count_grows(bases: Seq<Seq<char>>, i: int, j: int)
    requires
        0 <= i < j <= bases.len(),
    ensures
        count_before(bases, bases[i], j) >= count_before(bases, bases[i], i) + 1,
    decreases j - i,
{
    if j > i + 1 {
        lemma_count_grows(bases, i, j - 1);
    }
}

/// Repeated headings get distinct ids: two headings whose ids would share a
/// base are numbered apart (`dup`, `dup-1`, ...).
pub proof fn lemma_repeated_ids_differ(bases: Seq<Seq<char>>, i: int, j: int)
    requires
        0 <= i < j < bases.len(),
        bases[i] == bases[j],
    ensures
        heading_id(bases, i) != heading_id(bases, j),
{
    reveal_strlit("-");
    let x = bases[i];
    lemma_count_grows(bases, i, j);
    let ci = count_before(bases, x, i);
    let cj = count_before(bases, x, j);
    lemma_decimal_len(ci);
    lemma_decimal_len(cj);
    if ci == 0 {
        assert(heading_id(bases, j).len() > x.len());
    } else {
        let a = heading_id(bases, i);
        let b = heading_id(bases, j);
        if a == b {
            let p: int = (x.len() + 1) as int;
            assert(a.subrange(p, a.len() as int) =~= decimal(ci));
            assert(b.subrange(p, b.len() as int) =~= decimal(cj));
            lemma_decimal_injective(ci, cj);
        }
    }
}


/// No `<` in `s` has a `>` after it: `s` holds no tag.
pub open spec fn tag_free(s: Seq<char>) -> bool {
    forall|a: int, b: int| 0 <= a < b < s.len() && #[trigger] s[a] == '<' ==> #[trigger] s[b] != '>'
}

proof fn lemma_untagged_no_close(s: Seq<char>, p: int)
    requires
        forall|m: int| 0 <= p <= m < s.len() ==> #[trigger] s[m] != '>',
    ensures
        forall|j: int| 0 <= j < untagged_from(s, p).len() ==> #[trigger] untagged_from(s, p)[j] != '>',
    decreases s.len() - p,
{
    if 0 <= p < s.len() {
        lemma_untagged_no_close(s, p + 1);
        if s[p] == '<' && find_from(s, seq!['>'], p + 1) is Some {
            let q = find_from(s, seq!['>'], p + 1)->0;
            if p < q < s.len() {
                lemma_untagged_no_close(s, q + 1);
                assert(untagged_from(s, p) == untagged_from(s, q + 1));
            } else {
                assert(untagged_from(s, p) =~= Seq::<char>::empty());
            }
        } else {
            let r = untagged_from(s, p + 1);
            assert(untagged_from(s, p) == seq![s[p]] + r);
            assert forall|j: int| 0 <= j < (seq![s[p]] + r).len() implies #[trigger] (seq![s[p]]
                + r)[j] != '>' by {
                if j > 0 {
                    assert((seq![s[p]] + r)[j] == r[j - 1]);
                }
            }
        }
    }
}

proof fn lemma_untagged_tag_free(s: Seq<char>, p: int)
    ensures
        tag_free(untagged_from(s, p)),
    decreases s.len() - p,
{
    if 0 <= p < s.len() {
        lemma_untagged_tag_free(s, p + 1);
        if s[p] == '<' && find_from(s, seq!['>'], p + 1) is Some {
            let q = find_from(s, seq!['>'], p + 1)->0;
            if p < q < s.len() {
                lemma_untagged_tag_free(s, q + 1);
            }
        } else {
            let r = untagged_from(s, p + 1);
            let u = seq![s[p]] + r;
            if s[p] == '<' {
                lemma_find_from(s, seq!['>'], p + 1);
                assert forall|m: int| p + 1 <= m < s.len() implies #[trigger] s[m] != '>' by {
                    if s[m] == '>' {
                        assert(s.subrange(m, m + 1) =~= seq!['>']);
                        assert(matches_at(s, m, seq!['>']));
                    }
                }
                lemma_untagged_no_close(s, p + 1);
            }
            assert forall|a: int, b: int| 0 <= a < b < u.len() && #[trigger] u[a] == '<' implies #[trigger] u[b]
                != '>' by {
                assert(u[b] == r[b - 1]);
                if a > 0 {
                    assert(u[a] == r[a - 1]);
                }
            }
        }
    }
}

proof fn lemma_trimmed_tag_free(s: Seq<char>)
    requires
        tag_free(s),
    ensures
        tag_free(trimmed(s)),
    decreases s.len(),
{
    if s.len() > 0 && crate::dates::is_unicode_space(s[0]) {
        let t = s.drop_first();
        assert forall|a: int, b: int| 0 <= a < b < t.len() && #[trigger] t[a] == '<' implies #[trigger] t[b]
            != '>' by {
            assert(t[a] == s[a + 1] && t[b] == s[b + 1]);
        }
        lemma_trimmed_tag_free(t);
    } else if s.len() > 0 && crate::dates::is_unicode_space(s.last()) {
        let t = s.drop_last();
        assert forall|a: int, b: int| 0 <= a < b < t.len() && #[trigger] t[a] == '<' implies #[trigger] t[b]
            != '>' by {
            assert(t[a] == s[a] && t[b] == s[b]);
        }
        lemma_trimmed_tag_free(t);
    }
}

/// The label of each TOC entry is its heading's plain text: the inner markup
/// with its tags removed, trimmed and entity-decoded. Before decoding it holds
/// no tag, and the same text gives the heading's id, which the entry links to.
pub proof fn lemma_toc_labels(s: Seq<char>, i: int)
    requires
        0 <= i < heading_spans(s, 0).len(),
    ensures
        ({
            let hs = heading_spans(s, 0);
            let inner = s.subrange(hs[i].0 + 4, hs[i].1);
            let plain = trimmed(untagged_from(inner, 0));
            let label = toc_entries(s)[i].1;
            &&& tag_free(plain)
            &&& label == decoded(plain)
            &&& toc_entries(s)[i].2 == heading_ids(s, hs)[i]
            &&& heading_bases(s, hs)[i] == if slug(label).len() > 0 {
                slug(label)
            } else {
                "section-"@ + decimal((i + 1) as nat)
            }
        }),
{
    let hs = heading_spans(s, 0);
    let inner = s.subrange(hs[i].0 + 4, hs[i].1);
    lemma_untagged_tag_free(inner, 0);
    lemma_trimmed_tag_free(untagged_from(inner, 0));
}

} // verus!
