//! The HTML post-processing applied to every compiled page, and the filter for
//! Typst's constant "HTML export is experimental" warning.

use vstd::prelude::*;

use crate::strings::{
    chars_of, contains, find_from_exec, replace_first, replace_first_exec, string_of,
};
use crate::text::ascii_lower;

verus! {

/// The stylesheet link placed at the end of every page's `<head>`.
pub open spec fn stylesheet_block() -> Seq<char> {
    "    <link rel=\"stylesheet\" href=\"/style.css\">\n  </head>"@
}

/// Link the site stylesheet: the first `</head>` is preceded by it.
pub fn inject_css(html: &str) -> (res: String)
    ensures
        res@ == replace_first(html@, "</head>"@, stylesheet_block()),
{
    let out = replace_first_exec(
        &chars_of(html),
        &chars_of("</head>"),
        &chars_of("    <link rel=\"stylesheet\" href=\"/style.css\">\n  </head>"),
    );
    string_of(&out)
}

/// `str::to_ascii_lowercase`: ASCII letters lowercased, all else kept.
pub open spec fn ascii_lowercased(s: Seq<char>) -> Seq<char> {
    Seq::new(s.len(), |i: int| ascii_lower(s[i]))
}

/// A warning is Typst's notice that HTML export is experimental (or under
/// development), compared without regard to ASCII case.
pub open spec fn is_experimental_notice(msg: Seq<char>) -> bool {
    let m = ascii_lowercased(msg);
    contains(m, "html export"@) && (contains(m, "experiment"@) || contains(m, "development"@))
}

/// Whether a warning is the constant "HTML export is experimental" notice,
/// which normal builds leave out.
pub fn is_html_experimental_notice(msg: &str) -> (res: bool)
    ensures
        res == is_experimental_notice(msg@),
{
    let cs = chars_of(msg);
    let mut m: Vec<char> = Vec::new();
    let mut i: usize = 0;
    while i < cs.len()
        invariant
            i <= cs@.len(),
            m@ == ascii_lowercased(cs@.take(i as int)),
        decreases cs.len() - i,
    {
        let c = cs[i];
        let lower = if 'A' <= c && c <= 'Z' {
            ((c as u8) + 32) as char
        } else {
            c
        };
        m.push(lower);
        assert(m@ =~= ascii_lowercased(cs@.take(i + 1)));
        i = i + 1;
    }
    assert(cs@.take(cs@.len() as int) == cs@);
    find_from_exec(&m, &chars_of("html export"), 0).is_some() && (find_from_exec(
        &m,
        &chars_of("experiment"),
        0,
    ).is_some() || find_from_exec(&m, &chars_of("development"), 0).is_some())
}

} // verus!
