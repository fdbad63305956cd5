//! Escaping and entity decoding undo each other: text escaped for HTML and
//! then decoded is the text itself, so a decoded `<title>` is escaped exactly
//! once again in `og:title`.

use vstd::prelude::*;

use crate::feed::xml_escaped;
use crate::head::attr_escaped;
use crate::strings::{matches_at, replace_all, replace_from};
use crate::text::decoded;

verus! {

/// The `k`-th entity `decode_entities` replaces (1 to 6).
pub open spec fn entity(k: int) -> Seq<char> {
    if k == 1 {
        seq!['&', 'l', 't', ';']
    } else if k == 2 {
        seq!['&', 'g', 't', ';']
    } else if k == 3 {
        seq!['&', 'q', 'u', 'o', 't', ';']
    } else if k == 4 {
        seq!['&', '#', '3', '9', ';']
    } else if k == 5 {
        seq!['&', '#', 'x', '2', '7', ';']
    } else {
        seq!['&', 'a', 'm', 'p', ';']
    }
}

/// What the `k`-th entity decodes to.
pub open spec fn entity_char(k: int) -> Seq<char> {
    if k == 1 {
        seq!['<']
    } else if k == 2 {
        seq!['>']
    } else if k == 3 {
        seq!['"']
    } else if k == 4 || k == 5 {
        seq!['\'']
    } else {
        seq!['&']
    }
}

/// The escape of `c` after the first `k` decoding steps (`quotes`: whether
/// `"` was escaped).
pub open spec fn staged(c: char, k: int, quotes: bool) -> Seq<char> {
    if c == '<' && k < 1 {
        entity(1)
    } else if c == '>' && k < 2 {
        entity(2)
    } else if c == '"' && quotes && k < 3 {
        entity(3)
    } else if c == '&' && k < 6 {
        entity(6)
    } else {
        seq![c]
    }
}

/// The escape of `s` after the first `k` decoding steps.
pub open spec fn staged_all(s: Seq<char>, k: int, quotes: bool) -> Seq<char>
    decreases s.len(),
{
    if s.len() == 0 {
        seq![]
    } else {
        staged(s[0], k, quotes) + staged_all(s.drop_first(), k, quotes)
    }
}

proof fn lemma_staged_push(s: Seq<char>, c: char, k: int, q: bool)
    ensures
        staged_all(s.push(c), k, q) == staged_all(s, k, q) + staged(c, k, q),
    decreases s.len(),
{
    if s.len() == 0 {
        assert(s.push(c).drop_first() =~= seq![]);
        assert(staged_all(seq![], k, q) =~= seq![]);
    } else {
        assert(s.push(c).drop_first() =~= s.drop_first().push(c));
        lemma_staged_push(s.drop_first(), c, k, q);
        assert(staged_all(s.push(c), k, q) =~= staged_all(s, k, q) + staged(c, k, q));
    }
}

proof fn lemma_stage_zero(s: Seq<char>)
    ensures
        staged_all(s, 0, true) == attr_escaped(s),
        staged_all(s, 0, false) == xml_escaped(s),
    decreases s.len(),
{
    if s.len() > 0 {
        lemma_stage_zero(s.drop_last());
        lemma_staged_push(s.drop_last(), s.last(), 0, true);
        lemma_staged_push(s.drop_last(), s.last(), 0, false);
        assert(s.drop_last().push(s.last()) =~= s);
    }
}

proof fn lemma_stage_six(s: Seq<char>, q: bool)
    ensures
        staged_all(s, 6, q) == s,
    decreases s.len(),
{
    if s.len() > 0 {
        lemma_stage_six(s.drop_first(), q);
        assert(seq![s[0]] + s.drop_first() =~= s);
    }
}

/// `replace_from` at an index is `replace_from` of the suffix.
proof fn lemma_replace_shift(a: Seq<char>, b: Seq<char>, pat: Seq<char>, rep: Seq<char>, j: int)
    requires
        0 <= j <= b.len(),
    ensures
        replace_from(a + b, pat, rep, a.len() + j) == replace_from(b, pat, rep, j),
    decreases b.len() - j,
{
    let w = a + b;
    if j < b.len() && pat.len() > 0 {
        assert(w[a.len() + j] == b[j]);
        if j + pat.len() <= b.len() {
            assert(w.subrange(a.len() + j, a.len() + j + pat.len()) =~= b.subrange(
                j,
                j + pat.len(),
            ));
        }
        assert(matches_at(w, a.len() + j, pat) == matches_at(b, j, pat));
        if matches_at(b, j, pat) {
            lemma_replace_shift(a, b, pat, rep, j + pat.len());
        } else {
            lemma_replace_shift(a, b, pat, rep, j + 1);
        }
    } else {
        assert(w.subrange(a.len() + j, w.len() as int) =~= b.subrange(j, b.len() as int));
    }
}

/// Characters other than `&` pass through a replacement of an entity.
proof fn lemma_replace_copy(w: Seq<char>, pat: Seq<char>, rep: Seq<char>, j: int, m: int)
    requires
        0 <= j <= m <= w.len(),
        pat.len() > 0,
        pat[0] == '&',
        forall|i: int| j <= i < m ==> w[i] != '&',
    ensures
        replace_from(w, pat, rep, j) == w.subrange(j, m) + replace_from(w, pat, rep, m),
    decreases m - j,
{
    if j < m {
        assert(!matches_at(w, j, pat)) by {
            if matches_at(w, j, pat) {
                assert(w.subrange(j, j + pat.len())[0] == w[j]);
            }
        }
        lemma_replace_copy(w, pat, rep, j + 1, m);
        assert(seq![w[j]] + w.subrange(j + 1, m) =~= w.subrange(j, m));
    } else {
        assert(w.subrange(j, m) =~= seq![]);
    }
}

/// One escaped character through the `k + 1`-th decoding step.
proof fn lemma_stage_token(c: char, k: int, q: bool, rest: Seq<char>)
    requires
        0 <= k < 6,
    ensures
        replace_all(staged(c, k, q) + rest, entity(k + 1), entity_char(k + 1)) == staged(c, k + 1, q)
            + replace_all(rest, entity(k + 1), entity_char(k + 1)),
{
    let tok = staged(c, k, q);
    let pat = entity(k + 1);
    let rep = entity_char(k + 1);
    let w = tok + rest;
    assert(pat.len() > 0 && pat[0] == '&');
    if tok == pat {
        assert(w.subrange(0, pat.len() as int) =~= pat);
        assert(matches_at(w, 0, pat));
        lemma_replace_shift(tok, rest, pat, rep, 0);
        assert(staged(c, k + 1, q) == rep);
    } else {
        assert(staged(c, k + 1, q) == tok);
        assert(!matches_at(w, 0, pat)) by {
            if matches_at(w, 0, pat) {
                let sub = w.subrange(0, pat.len() as int);
                assert(sub == pat);
                if tok.len() == 1 {
                    assert(sub[0] == tok[0]);
                } else {
                    assert(sub[1] == tok[1]);
                    assert(sub[2] == tok[2]);
                }
            }
        }
        assert forall|i: int| 1 <= i < tok.len() implies w[i] != '&' by {
            assert(w[i] == tok[i]);
        }
        if tok.len() > 1 {
            lemma_replace_copy(w, pat, rep, 1, tok.len() as int);
        } else {
            assert(w.subrange(1, 1) =~= seq![]);
        }
        assert(w[0] == tok[0]);
        lemma_replace_shift(tok, rest, pat, rep, 0);
        assert(seq![w[0]] + w.subrange(1, tok.len() as int) =~= tok);
    }
}

/// One whole decoding step: `k` escaped steps become `k + 1`.
proof fn lemma_stage_step(s: Seq<char>, k: int, q: bool)
    requires
        0 <= k < 6,
    ensures
        replace_all(staged_all(s, k, q), entity(k + 1), entity_char(k + 1)) == staged_all(
            s,
            k + 1,
            q,
        ),
    decreases s.len(),
{
    if s.len() == 0 {
        assert(staged_all(s, k, q).len() == 0);
        assert(replace_all(seq![], entity(k + 1), entity_char(k + 1)) =~= seq![]);
    } else {
        lemma_stage_step(s.drop_first(), k, q);
        lemma_stage_token(s[0], k, q, staged_all(s.drop_first(), k, q));
    }
}

proof fn lemma_decode_staged(s: Seq<char>, q: bool)
    ensures
        decoded(staged_all(s, 0, q)) == s,
{
    reveal_strlit("&lt;");
    reveal_strlit("<");
    reveal_strlit("&gt;");
    reveal_strlit(">");
    reveal_strlit("&quot;");
    reveal_strlit("\"");
    reveal_strlit("&#39;");
    reveal_strlit("'");
    reveal_strlit("&#x27;");
    reveal_strlit("&amp;");
    reveal_strlit("&");
    assert("&lt;"@ =~= entity(1) && "<"@ =~= entity_char(1));
    assert("&gt;"@ =~= entity(2) && ">"@ =~= entity_char(2));
    assert("&quot;"@ =~= entity(3) && "\""@ =~= entity_char(3));
    assert("&#39;"@ =~= entity(4) && "'"@ =~= entity_char(4));
    assert("&#x27;"@ =~= entity(5) && "'"@ =~= entity_char(5));
    assert("&amp;"@ =~= entity(6) && "&"@ =~= entity_char(6));
    lemma_stage_step(s, 0, q);
    lemma_stage_step(s, 1, q);
    lemma_stage_step(s, 2, q);
    lemma_stage_step(s, 3, q);
    lemma_stage_step(s, 4, q);
    lemma_stage_step(s, 5, q);
    lemma_stage_six(s, q);
}

/// Decoding undoes attribute escaping: `decode_entities(attr(s)) == s`.
pub proof fn lemma_decode_attr(s: Seq<char>)
    ensures
        decoded(attr_escaped(s)) == s,
{
    lemma_stage_zero(s);
    lemma_decode_staged(s, true);
}

/// Decoding undoes XML/HTML text escaping: `decode_entities(xml(s)) == s`.
/// Typst escapes a `<title>` this way, so the title decoded for `og:title`
/// is the real text, escaped exactly once again there.
pub proof fn lemma_decode_xml(s: Seq<char>)
    ensures
        decoded(xml_escaped(s)) == s,
{
    lemma_stage_zero(s);
    lemma_decode_staged(s, false);
}

} // verus!
