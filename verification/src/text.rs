//! Small text utilities shared across modules: slugs and entity decoding.

use vstd::prelude::*;

use crate::strings::{chars_of, replace_all, replace_all_exec, string_of};

verus! {

/// `char::is_ascii_alphanumeric`.
pub open spec fn is_ascii_alnum(c: char) -> bool {
    ('a' <= c && c <= 'z') || ('A' <= c && c <= 'Z') || ('0' <= c && c <= '9')
}

/// `char::to_ascii_lowercase`.
pub open spec fn ascii_lower(c: char) -> char {
    if 'A' <= c && c <= 'Z' {
        (((c as u8) + 32) as u8) as char
    } else {
        c
    }
}

/// A character that may appear in a slug: `[a-z0-9]`.
pub open spec fn is_slug_char(c: char) -> bool {
    ('a' <= c && c <= 'z') || ('0' <= c && c <= '9')
}

/// Scanning `s` left to right: the slug built so far, and whether it ends in
/// a separator that stands for the current run of other characters.
pub open spec fn slug_scan(s: Seq<char>) -> (Seq<char>, bool)
    decreases s.len(),
{
    if s.len() == 0 {
        (seq![], false)
    } else {
        let (out, dash) = slug_scan(s.drop_last());
        let c = s.last();
        if is_ascii_alnum(c) {
            (out.push(ascii_lower(c)), false)
        } else if !dash && out.len() > 0 {
            (out.push('-'), true)
        } else {
            (out, dash)
        }
    }
}

/// `s` without its trailing `-` characters.
pub open spec fn trim_end_dashes(s: Seq<char>) -> Seq<char>
    decreases s.len(),
{
    if s.len() > 0 && s.last() == '-' {
        trim_end_dashes(s.drop_last())
    } else {
        s
    }
}

/// The slug of `s`: ASCII letters and digits lowercased, each run of other
/// characters between them turned into one `-`, none at either end.
pub open spec fn slug(s: Seq<char>) -> Seq<char> {
    trim_end_dashes(slug_scan(s).0)
}

/// A well-formed slug: only `[a-z0-9-]`, no `-` at either end, no `--`.
pub open spec fn is_slug(s: Seq<char>) -> bool {
    &&& forall|i: int| 0 <= i < s.len() ==> (is_slug_char(#[trigger] s[i]) || s[i] == '-')
    &&& s.len() > 0 ==> s[0] != '-' && s.last() != '-'
    &&& forall|i: int| 0 <= i < s.len() - 1 ==> !(#[trigger] s[i] == '-' && s[i + 1] == '-')
}

/// The shape every prefix of a slug has: `[a-z0-9-]` only, no leading `-`,
/// no `--`.
pub open spec fn is_slug_prefix(s: Seq<char>) -> bool {
    &&& forall|i: int| 0 <= i < s.len() ==> (is_slug_char(#[trigger] s[i]) || s[i] == '-')
    &&& s.len() > 0 ==> s[0] != '-'
    &&& forall|i: int| 0 <= i < s.len() - 1 ==> !(#[trigger] s[i] == '-' && s[i + 1] == '-')
}

proof fn lemma_slug_scan_shape(s: Seq<char>)
    ensures
        is_slug_prefix(slug_scan(s).0),
        slug_scan(s).1 <==> (slug_scan(s).0.len() > 0 && slug_scan(s).0.last() == '-'),
    decreases s.len(),
{
    if s.len() > 0 {
        lemma_slug_scan_shape(s.drop_last());
        let (out, dash) = slug_scan(s.drop_last());
        let c = s.last();
        if is_ascii_alnum(c) {
            let o2 = out.push(ascii_lower(c));
            assert(is_slug_char(ascii_lower(c)));
            assert forall|i: int| 0 <= i < o2.len() - 1 implies !(#[trigger] o2[i] == '-' && o2[i
                + 1] == '-') by {
                if i < out.len() - 1 {
                    assert(o2[i] == out[i] && o2[i + 1] == out[i + 1]);
                }
            }
        } else if !dash && out.len() > 0 {
            let o2 = out.push('-');
            assert forall|i: int| 0 <= i < o2.len() - 1 implies !(#[trigger] o2[i] == '-' && o2[i
                + 1] == '-') by {
                if i < out.len() - 1 {
                    assert(o2[i] == out[i] && o2[i + 1] == out[i + 1]);
                }
            }
        }
    }
}

proof fn lemma_trim_end_dashes(s: Seq<char>)
    requires
        is_slug_prefix(s),
    ensures
        is_slug(trim_end_dashes(s)),
    decreases s.len(),
{
    if s.len() > 0 && s.last() == '-' {
        let t = s.drop_last();
        assert(is_slug_prefix(t)) by {
            assert forall|i: int| 0 <= i < t.len() - 1 implies !(#[trigger] t[i] == '-' && t[i
                + 1] == '-') by {
                assert(t[i] == s[i] && t[i + 1] == s[i + 1]);
            }
        }
        lemma_trim_end_dashes(t);
    }
}

proof fn lemma_slug_scan_of_slug_prefix(t: Seq<char>)
    requires
        is_slug_prefix(t),
    ensures
        slug_scan(t).0 == t,
        slug_scan(t).1 <==> (t.len() > 0 && t.last() == '-'),
    decreases t.len(),
{
    if t.len() > 0 {
        let p = t.drop_last();
        assert(is_slug_prefix(p)) by {
            assert forall|i: int| 0 <= i < p.len() - 1 implies !(#[trigger] p[i] == '-' && p[i
                + 1] == '-') by {
                assert(p[i] == t[i] && p[i + 1] == t[i + 1]);
            }
        }
        lemma_slug_scan_of_slug_prefix(p);
        assert(is_slug_char(t[t.len() - 1]) || t[t.len() - 1] == '-');
        if t.last() == '-' {
            assert(t.len() >= 2);
            assert(!(t[t.len() - 2] == '-' && t[t.len() - 1] == '-'));
        }
        assert(p.push(t.last()) == t);
    }
}

/// A slug is made of `[a-z0-9]` runs joined by single `-`, with no `-` at
/// either end.
pub proof fn lemma_slug_is_well_formed(s: Seq<char>)
    ensures
        is_slug(slug(s)),
{
    lemma_slug_scan_shape(s);
    lemma_trim_end_dashes(slug_scan(s).0);
}

/// Slugifying a slug changes nothing: a file stem that equals its slug is
/// already URL-safe.
pub proof fn lemma_slug_idempotent(s: Seq<char>)
    ensures
        slug(slug(s)) == slug(s),
{
    let t = slug(s);
    lemma_slug_is_well_formed(s);
    assert(is_slug_prefix(t));
    lemma_slug_scan_of_slug_prefix(t);
}

/// The ASCII letters and digits of `s`, lowercased, in order.
pub open spec fn alnum_lowered(s: Seq<char>) -> Seq<char>
    decreases s.len(),
{
    if s.len() == 0 {
        seq![]
    } else if is_ascii_alnum(s.last()) {
        alnum_lowered(s.drop_last()).push(ascii_lower(s.last()))
    } else {
        alnum_lowered(s.drop_last())
    }
}

/// `s` without its `-` characters.
pub open spec fn without_dashes(s: Seq<char>) -> Seq<char>
    decreases s.len(),
{
    if s.len() == 0 {
        seq![]
    } else if s.last() == '-' {
        without_dashes(s.drop_last())
    } else {
        without_dashes(s.drop_last()).push(s.last())
    }
}

proof fn lemma_scan_keeps_alnum(s: Seq<char>)
    ensures
        without_dashes(slug_scan(s).0) == alnum_lowered(s),
    decreases s.len(),
{
    if s.len() > 0 {
        lemma_scan_keeps_alnum(s.drop_last());
        let (out, dash) = slug_scan(s.drop_last());
        let c = s.last();
        if is_ascii_alnum(c) {
            assert(out.push(ascii_lower(c)).drop_last() == out);
            assert(ascii_lower(c) != '-');
        } else if !dash && out.len() > 0 {
            assert(out.push('-').drop_last() == out);
        }
    }
}

proof fn lemma_trim_keeps_dashless(s: Seq<char>)
    ensures
        without_dashes(trim_end_dashes(s)) == without_dashes(s),
    decreases s.len(),
{
    if s.len() > 0 && s.last() == '-' {
        lemma_trim_keeps_dashless(s.drop_last());
    }
}

/// A slug keeps exactly the ASCII letters and digits of the text, lowercased
/// and in order; everything else became the `-` separators.
pub proof fn lemma_slug_keeps_letters_and_digits(s: Seq<char>)
    ensures
        without_dashes(slug(s)) == alnum_lowered(s),
{
    lemma_scan_keeps_alnum(s);
    lemma_trim_keeps_dashless(slug_scan(s).0);
}

/// Each character of `s` as it enters a slug: ASCII letters and digits
/// lowercased, anything else a `-`.
pub open spec fn slug_mapped(s: Seq<char>) -> Seq<char> {
    Seq::new(
        s.len(),
        |i: int|
            if is_ascii_alnum(s[i]) {
                ascii_lower(s[i])
            } else {
                '-'
            },
    )
}

/// `s` with each run of `-` collapsed to a single `-`.
pub open spec fn collapse_dashes(s: Seq<char>) -> Seq<char>
    decreases s.len(),
{
    if s.len() == 0 {
        seq![]
    } else {
        let c = collapse_dashes(s.drop_last());
        if s.last() == '-' && c.len() > 0 && c.last() == '-' {
            c
        } else {
            c.push(s.last())
        }
    }
}

/// `s` without its leading `-` characters.
pub open spec fn trim_start_dashes(s: Seq<char>) -> Seq<char>
    decreases s.len(),
{
    if s.len() > 0 && s[0] == '-' {
        trim_start_dashes(s.drop_first())
    } else {
        s
    }
}

proof fn lemma_trim_start_push(x: Seq<char>, c: char)
    ensures
        trim_start_dashes(x.push(c)) == (if trim_start_dashes(x).len() == 0 {
            trim_start_dashes(seq![c])
        } else {
            trim_start_dashes(x).push(c)
        }),
        trim_start_dashes(x).len() > 0 ==> trim_start_dashes(x).last() == x.last(),
        trim_start_dashes(x).len() == 0 ==> forall|i: int| 0 <= i < x.len() ==> x[i] == '-',
    decreases x.len(),
{
    if x.len() == 0 {
        assert(x.push(c) =~= seq![c]);
    } else if x[0] == '-' {
        assert(x.push(c).drop_first() =~= x.drop_first().push(c));
        lemma_trim_start_push(x.drop_first(), c);
        if trim_start_dashes(x).len() == 0 {
            assert forall|i: int| 0 <= i < x.len() implies x[i] == '-' by {
                if i > 0 {
                    assert(x[i] == x.drop_first()[i - 1]);
                }
            }
        }
    } else {
        assert(x.push(c)[0] == x[0]);
    }
}

proof fn lemma_scan_is_collapse(s: Seq<char>)
    ensures
        slug_scan(s).0 == trim_start_dashes(collapse_dashes(slug_mapped(s))),
    decreases s.len(),
{
    if s.len() > 0 {
        let t = s.drop_last();
        lemma_scan_is_collapse(t);
        lemma_slug_scan_shape(t);
        assert(slug_mapped(s).drop_last() =~= slug_mapped(t));
        let x = collapse_dashes(slug_mapped(t));
        let m = slug_mapped(s).last();
        lemma_trim_start_push(x, m);
        let (out, dash) = slug_scan(t);
        if is_ascii_alnum(s.last()) {
            assert(m != '-');
            assert(trim_start_dashes(seq![m]) == seq![m]);
            if out.len() == 0 {
                assert(out.push(m) =~= seq![m]);
            }
        } else {
            assert(m == '-');
            let empty: Seq<char> = seq![];
            assert(seq![m].drop_first() =~= empty);
            assert(trim_start_dashes(empty) == empty);
            assert(trim_start_dashes(seq![m]) == empty);
            if x.len() > 0 && x.last() == '-' {
            } else if x.len() == 0 {
            } else {
                assert(trim_start_dashes(x).len() > 0) by {
                    if trim_start_dashes(x).len() == 0 {
                        assert(x[x.len() - 1] == '-');
                    }
                }
            }
        }
    }
}

/// Where the dashes of a slug fall: map each ASCII letter or digit to its
/// lowercase form and every other character to `-`, collapse each run of `-`
/// into one, and drop the `-` at either end. So two kept characters have one
/// `-` between them exactly when something else stood between them.
pub proof fn lemma_slug_dashes(s: Seq<char>)
    ensures
        slug(s) == trim_end_dashes(trim_start_dashes(collapse_dashes(slug_mapped(s)))),
{
    lemma_scan_is_collapse(s);
}

/// URL/filename-safe slug, the same rules as the `slugify` of the site
/// template: lowercase, each run of non-`[a-z0-9]` becomes a single `-`,
/// leading/trailing `-` trimmed.
pub fn slugify(s: &str) -> (res: String)
    ensures
        res@ == slug(s@),
{
    let out = slug_chars(&chars_of(s));
    string_of(&out)
}

/// `slugify` on characters.
pub fn slug_chars(cs: &[char]) -> (res: Vec<char>)
    ensures
        res@ == slug(cs@),
{
    let mut out: Vec<char> = Vec::new();
    let mut dash = false;
    let mut i: usize = 0;
    while i < cs.len()
        invariant
            i <= cs@.len(),
            (out@, dash) == slug_scan(cs@.take(i as int)),
        decreases cs.len() - i,
    {
        let c = cs[i];
        assert(cs@.take(i + 1).drop_last() == cs@.take(i as int));
        if ('a' <= c && c <= 'z') || ('A' <= c && c <= 'Z') || ('0' <= c && c <= '9') {
            let lower = if 'A' <= c && c <= 'Z' {
                ((c as u8) + 32) as char
            } else {
                c
            };
            out.push(lower);
            dash = false;
        } else if !dash && out.len() > 0 {
            out.push('-');
            dash = true;
        }
        i = i + 1;
    }
    assert(cs@.take(cs@.len() as int) == cs@);
    while out.len() > 0 && out[out.len() - 1] == '-'
        invariant
            trim_end_dashes(out@) == slug(cs@),
        decreases out.len(),
    {
        out.pop();
    }
    out
}

/// The decimal digit for `d < 10`.
pub open spec fn digit(d: nat) -> char {
    ((48 + d) as u8) as char
}

/// The decimal form of `n`, as `{}` formats an unsigned integer.
pub open spec fn decimal(n: nat) -> Seq<char>
    decreases n,
{
    if n < 10 {
        seq![digit(n)]
    } else {
        decimal(n / 10).push(digit(n % 10))
    }
}

/// The decimal form of `n`.
pub fn decimal_chars(n: usize) -> (res: Vec<char>)
    ensures
        res@ == decimal(n as nat),
    decreases n,
{
    if n < 10 {
        let mut v: Vec<char> = Vec::new();
        v.push(((n as u8) + 48) as char);
        v
    } else {
        let mut v = decimal_chars(n / 10);
        v.push((((n % 10) as u8) + 48) as char);
        v
    }
}

/// Decoding the entities Typst emits, `&amp;` last.
pub open spec fn decoded(s: Seq<char>) -> Seq<char> {
    replace_all(
        replace_all(
            replace_all(
                replace_all(
                    replace_all(replace_all(s, "&lt;"@, "<"@), "&gt;"@, ">"@),
                    "&quot;"@,
                    "\""@,
                ),
                "&#39;"@,
                "'"@,
            ),
            "&#x27;"@,
            "'"@,
        ),
        "&amp;"@,
        "&"@,
    )
}

/// Decode the handful of HTML entities Typst emits in text, so text extracted
/// from generated HTML (heading labels, `<title>`) is the real string before it
/// is re-escaped for another context. `&amp;` is decoded last so already-decoded
/// text isn't decoded twice.
pub fn decode_entities(s: &str) -> (res: String)
    ensures
        res@ == decoded(s@),
{
    let v = decode_chars(&chars_of(s));
    string_of(&v)
}

/// `decode_entities` on characters.
pub fn decode_chars(s: &[char]) -> (res: Vec<char>)
    ensures
        res@ == decoded(s@),
{
    proof {
        reveal_strlit("&lt;");
        reveal_strlit("&gt;");
        reveal_strlit("&quot;");
        reveal_strlit("&#39;");
        reveal_strlit("&#x27;");
        reveal_strlit("&amp;");
    }
    let v = replace_all_exec(s, &chars_of("&lt;"), &chars_of("<"));
    let v = replace_all_exec(&v, &chars_of("&gt;"), &chars_of(">"));
    let v = replace_all_exec(&v, &chars_of("&quot;"), &chars_of("\""));
    let v = replace_all_exec(&v, &chars_of("&#39;"), &chars_of("'"));
    let v = replace_all_exec(&v, &chars_of("&#x27;"), &chars_of("'"));
    replace_all_exec(&v, &chars_of("&amp;"), &chars_of("&"))
}

} // verus!
