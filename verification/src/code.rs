//! Optional line numbers for code blocks (zero-JS, via CSS counters).
//!
//! Typst emits `<pre><code …>line1\nline2…</code></pre>` with no per-line
//! element, so to number lines each line is wrapped in `<span class="line">`
//! and the `<pre>` is tagged; the stylesheet renders a gutter with CSS
//! counters.

use vstd::prelude::*;

use crate::strings::{
    chars_of, find_from, find_from_exec, lemma_find_from, matches_at, matches_at_exec, push_range,
    push_str, replace_all, replace_all_exec, string_of,
};

verus! {

/// A code block starts at `i`: `<pre><code`, the rest of the `<code …>` tag up
/// to its `>` at `g`, and the first `</code></pre>` after it at `k`. Returns
/// `(g, k)`. This is a match of `(?s)<pre>(<code[^>]*>)(.*?)</code></pre>`.
pub open spec fn block_at(s: Seq<char>, i: int) -> Option<(int, int)> {
    if matches_at(s, i, "<pre><code"@) {
        match find_from(s, ">"@, i + 10) {
            Some(g) => match find_from(s, "</code></pre>"@, g + 1) {
                Some(k) => Some((g, k)),
                None => None,
            },
            None => None,
        }
    } else {
        None
    }
}

/// The `<span class="line">` wrapping of a block's body: one trailing newline
/// dropped, then each line wrapped, the newlines between them kept.
pub open spec fn numbered_body(body: Seq<char>) -> Seq<char> {
    let b = if body.len() > 0 && body.last() == '\n' {
        body.drop_last()
    } else {
        body
    };
    "<span class=\"line\">"@ + replace_all(b, "\n"@, "</span>\n<span class=\"line\">"@)
        + "</span>"@
}

/// The rewritten block for a match at `i` with `(g, k)` from `block_at`.
pub open spec fn numbered_block(s: Seq<char>, i: int, g: int, k: int) -> Seq<char> {
    "<pre class=\"numbered\">"@ + s.subrange(i + 5, g + 1) + numbered_body(s.subrange(g + 1, k))
        + "</code></pre>"@
}

/// `s[p..]` with every code block rewritten, scanning left to right without
/// overlaps.
pub open spec fn numbered_from(s: Seq<char>, p: int) -> Seq<char>
    decreases s.len() - p,
{
    if p < 0 || p >= s.len() {
        seq![]
    } else {
        match block_at(s, p) {
            Some((g, k)) => if p < k + 13 <= s.len() {
                numbered_block(s, p, g, k) + numbered_from(s, k + 13)
            } else {
                seq![]
            },
            None => seq![s[p]] + numbered_from(s, p + 1),
        }
    }
}

proof fn lemma_block_at(s: Seq<char>, i: int)
    requires
        0 <= i,
    ensures
        block_at(s, i) matches Some((g, k)) ==> i + 10 <= g && g < k && matches_at(s, g, ">"@)
            && matches_at(s, k, "</code></pre>"@) && i < k + 13 && k + 13 <= s.len(),
{
    reveal_strlit("</code></pre>");
    if matches_at(s, i, "<pre><code"@) {
        lemma_find_from(s, ">"@, i + 10);
        if let Some(g) = find_from(s, ">"@, i + 10) {
            lemma_find_from(s, "</code></pre>"@, g + 1);
        }
    }
}

/// Whether a code block starts at `i`, and where its tag and body end.
fn block_at_exec(s: &Vec<char>, i: usize) -> (res: Option<(usize, usize)>)
    ensures
        res matches Some((g, k)) ==> block_at(s@, i as int) == Some((g as int, k as int)),
        res is None ==> block_at(s@, i as int) is None,
{
    proof {
        reveal_strlit("<pre><code");
        reveal_strlit(">");
        reveal_strlit("</code></pre>");
    }
    if !matches_at_exec(s, i, &chars_of("<pre><code")) {
        return None;
    }
    assert(i + 10 <= s.len());
    match find_from_exec(s, &chars_of(">"), i + 10) {
        Some(g) => {
            proof {
                lemma_find_from(s@, ">"@, i + 10);
            }
            assert(g + 1 <= s.len());
            match find_from_exec(s, &chars_of("</code></pre>"), g + 1) {
                Some(k) => Some((g, k)),
                None => None,
            }
        },
        None => None,
    }
}

/// Appends the rewritten block to `out`.
fn push_numbered_block(out: &mut Vec<char>, s: &Vec<char>, i: usize, g: usize, k: usize)
    requires
        i + 5 <= g + 1 <= k <= s@.len(),
    ensures
        final(out)@ == old(out)@ + numbered_block(s@, i as int, g as int, k as int),
{
    proof {
        reveal_strlit("\n");
    }
    let ghost start = out@;
    let mut body: Vec<char> = Vec::new();
    let end: usize = if k > g + 1 && s[k - 1] == '\n' {
        k - 1
    } else {
        k
    };
    push_range(&mut body, s, g + 1, end);
    let ghost whole = s@.subrange(g + 1, k as int);
    assert(body@ == (if whole.len() > 0 && whole.last() == '\n' {
        whole.drop_last()
    } else {
        whole
    }));
    let lines = replace_all_exec(&body, &chars_of("\n"), &chars_of("</span>\n<span class=\"line\">"));
    push_str(out, "<pre class=\"numbered\">");
    push_range(out, s, i + 5, g + 1);
    push_str(out, "<span class=\"line\">");
    push_range(out, &lines, 0, lines.len());
    assert(lines@.subrange(0, lines@.len() as int) == lines@);
    push_str(out, "</span>");
    push_str(out, "</code></pre>");
    assert(out@ =~= start + numbered_block(s@, i as int, g as int, k as int));
}

/// Wrap each line of every code block in `<span class="line">` and mark the
/// `<pre>` so the stylesheet can number lines. Inline `<code>` is untouched
/// (it has no `<pre>`).
pub fn number_lines(html: &str) -> (res: String)
    ensures
        res@ == numbered_from(html@, 0),
{
    let s = chars_of(html);
    let mut out: Vec<char> = Vec::new();
    let mut p: usize = 0;
    while p < s.len()
        invariant
            p <= s@.len(),
            out@ + numbered_from(s@, p as int) == numbered_from(s@, 0),
        decreases s.len() - p,
    {
        proof {
            lemma_block_at(s@, p as int);
        }
        match block_at_exec(&s, p) {
            Some((g, k)) => {
                push_numbered_block(&mut out, &s, p, g, k);
                assert(out@ + numbered_from(s@, k + 13) == numbered_from(s@, 0));
                p = k + 13;
            },
            None => {
                out.push(s[p]);
                p = p + 1;
            },
        }
    }
    assert(out@ + numbered_from(s@, p as int) == out@);
    string_of(&out)
}

} // verus!
