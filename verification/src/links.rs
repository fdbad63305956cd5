//! Build-time internal link checking: which links a page makes to the site
//! itself, and which output file each must resolve to.

use vstd::prelude::*;

use crate::strings::{
    chars_of, find_from, find_from_exec, lemma_find_from, matches_at, matches_at_exec, push_range,
    push_str, string_of, trim_start_char, trim_start_char_exec,
};

verus! {

/// A site-internal link attribute starts at `p`: `href="/`, up to the next
/// `"` at the returned index. This is a match of `href="(/[^"]*)"`.
pub open spec fn href_at(s: Seq<char>, p: int) -> Option<int> {
    if matches_at(s, p, "href=\"/"@) {
        find_from(s, "\""@, p + 7)
    } else {
        None
    }
}

/// The index of the first `#` or `?` in `s`, or its length.
pub open spec fn path_end(s: Seq<char>, i: int) -> int
    decreases s.len() - i,
{
    if i < 0 || i >= s.len() || s[i] == '#' || s[i] == '?' {
        i
    } else {
        path_end(s, i + 1)
    }
}

/// A link value without its fragment and query (the first piece of
/// `split(['#', '?'])`).
pub open spec fn without_fragment(raw: Seq<char>) -> Seq<char> {
    raw.subrange(0, path_end(raw, 0))
}

/// The site-internal links of `s[p..]`, in order: values of `href="/..."`
/// without fragment and query; protocol-relative `//...` ones are external.
pub open spec fn hrefs_from(s: Seq<char>, p: int) -> Seq<Seq<char>>
    decreases s.len() - p,
{
    if p < 0 || p >= s.len() {
        seq![]
    } else {
        match href_at(s, p) {
            Some(q) => if p < q < s.len() {
                let raw = s.subrange(p + 6, q);
                if raw.len() >= 2 && raw[1] == '/' {
                    hrefs_from(s, q + 1)
                } else {
                    seq![without_fragment(raw)] + hrefs_from(s, q + 1)
                }
            } else {
                seq![]
            },
            None => hrefs_from(s, p + 1),
        }
    }
}

proof fn lemma_href_at(s: Seq<char>, p: int)
    requires
        0 <= p,
    ensures
        href_at(s, p) matches Some(q) ==> p + 7 <= q < s.len() && s[q] == '"',
{
    reveal_strlit("href=\"/");
    reveal_strlit("\"");
    if matches_at(s, p, "href=\"/"@) {
        lemma_find_from(s, "\""@, p + 7);
        if let Some(q) = find_from(s, "\""@, p + 7) {
            assert(s.subrange(q, q + 1)[0] == s[q]);
        }
    }
}

/// `raw` without its fragment and query.
fn strip_fragment(raw: &Vec<char>) -> (res: Vec<char>)
    ensures
        res@ == without_fragment(raw@),
{
    let mut i: usize = 0;
    while i < raw.len() && raw[i] != '#' && raw[i] != '?'
        invariant
            i <= raw@.len(),
            path_end(raw@, 0) == path_end(raw@, i as int),
        decreases raw.len() - i,
    {
        i = i + 1;
    }
    let mut out: Vec<char> = Vec::new();
    push_range(&mut out, raw, 0, i);
    out
}

/// Extract `href="/..."` values (site-internal absolute links), minus
/// fragments and queries. Ignores external and protocol-relative URLs.
pub fn internal_hrefs(html: &str) -> (res: Vec<String>)
    ensures
        res@.len() == hrefs_from(html@, 0).len(),
        forall|i: int| 0 <= i < res@.len() ==> (#[trigger] res@[i])@ == hrefs_from(html@, 0)[i],
{
    proof {
        reveal_strlit("href=\"/");
        reveal_strlit("\"");
    }
    let s = chars_of(html);
    let open = chars_of("href=\"/");
    let quote = chars_of("\"");
    let mut out: Vec<String> = Vec::new();
    let ghost done: Seq<Seq<char>> = seq![];
    let mut p: usize = 0;
    while p < s.len()
        invariant
            p <= s@.len(),
            open@ == "href=\"/"@,
            open@.len() == 7,
            quote@ == "\""@,
            done + hrefs_from(s@, p as int) == hrefs_from(s@, 0),
            out@.len() == done.len(),
            forall|i: int| 0 <= i < out@.len() ==> (#[trigger] out@[i])@ == done[i],
        decreases s.len() - p,
    {
        proof {
            lemma_href_at(s@, p as int);
        }
        let found = if matches_at_exec(&s, p, &open) {
            assert(p + 7 <= s.len());
            find_from_exec(&s, &quote, p + 7)
        } else {
            None
        };
        assert(found matches Some(q) ==> href_at(s@, p as int) == Some(q as int));
        assert(found is None ==> href_at(s@, p as int) is None);
        match found {
            Some(q) => {
                let mut raw: Vec<char> = Vec::new();
                push_range(&mut raw, &s, p + 6, q);
                if raw.len() >= 2 && raw[1] == '/' {
                } else {
                    let path = strip_fragment(&raw);
                    out.push(string_of(&path));
                    proof {
                        done = done + seq![without_fragment(raw@)];
                    }
                }
                p = q + 1;
            },
            None => {
                p = p + 1;
            },
        }
    }
    assert(done + hrefs_from(s@, p as int) == done);
    out
}

/// The output file, relative to the site root, that a site-internal link
/// must resolve to: `index.html` inside the directory for `/` and `.../`,
/// else the path itself.
pub open spec fn link_target_path(href: Seq<char>) -> Seq<char> {
    let rel = trim_start_char(href, '/');
    if (href.len() > 0 && href.last() == '/') || rel.len() == 0 {
        rel + "index.html"@
    } else {
        rel
    }
}

/// The output file (relative to the site root) that `href` must resolve to.
pub fn link_target(href: &str) -> (res: String)
    ensures
        res@ == link_target_path(href@),
{
    let h = chars_of(href);
    let start: usize = trim_start_char_exec(&h, '/');
    let mut out: Vec<char> = Vec::new();
    push_range(&mut out, &h, start, h.len());
    if (h.len() > 0 && h[h.len() - 1] == '/') || start == h.len() {
        push_str(&mut out, "index.html");
    }
    string_of(&out)
}

} // verus!
