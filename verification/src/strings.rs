//! Character-sequence helpers shared by the HTML and text rewriting modules.
//!
//! Text is handled as `Vec<char>` while it is rewritten; its view is the
//! `Seq<char>` that `&str` and `String` have in contracts.

use vstd::prelude::*;

verus! {

/// `String::push` appends one character.
pub assume_specification[ String::push ](string: &mut String, ch: char)
    ensures
        final(string)@ == old(string)@.push(ch),
;

/// `pat` occurs in `s` starting at index `i`.
pub open spec fn matches_at(s: Seq<char>, i: int, pat: Seq<char>) -> bool {
    &&& 0 <= i
    &&& i + pat.len() <= s.len()
    &&& s.subrange(i, i + pat.len()) == pat
}

/// The first index `j >= i` at which `pat` occurs in `s`.
pub open spec fn find_from(s: Seq<char>, pat: Seq<char>, i: int) -> Option<int>
    decreases s.len() + 1 - i,
{
    if i < 0 || i + pat.len() > s.len() {
        None
    } else if matches_at(s, i, pat) {
        Some(i)
    } else {
        find_from(s, pat, i + 1)
    }
}

/// The first occurrence of `pat` in `s`.
pub open spec fn find(s: Seq<char>, pat: Seq<char>) -> Option<int> {
    find_from(s, pat, 0)
}

/// `s` contains `pat`.
pub open spec fn contains(s: Seq<char>, pat: Seq<char>) -> bool {
    find(s, pat) is Some
}

/// The last index `j <= i` at which `pat` occurs in `s`.
pub open spec fn rfind_upto(s: Seq<char>, pat: Seq<char>, i: int) -> Option<int>
    decreases i + 1,
{
    if i < 0 {
        None
    } else if matches_at(s, i, pat) {
        Some(i)
    } else {
        rfind_upto(s, pat, i - 1)
    }
}

/// The last occurrence of `pat` in `s`.
pub open spec fn rfind(s: Seq<char>, pat: Seq<char>) -> Option<int> {
    rfind_upto(s, pat, s.len() - pat.len())
}

/// Replacing every occurrence of `pat` in `s[i..]`, scanning left to right
/// without overlaps (the semantics of `str::replace`).
pub open spec fn replace_from(s: Seq<char>, pat: Seq<char>, rep: Seq<char>, i: int) -> Seq<char>
    decreases s.len() - i,
{
    if i >= s.len() || i < 0 || pat.len() == 0 {
        s.subrange(i, s.len() as int)
    } else if matches_at(s, i, pat) {
        rep + replace_from(s, pat, rep, i + pat.len())
    } else {
        seq![s[i]] + replace_from(s, pat, rep, i + 1)
    }
}

/// `str::replace(s, pat, rep)` for a non-empty `pat`.
pub open spec fn replace_all(s: Seq<char>, pat: Seq<char>, rep: Seq<char>) -> Seq<char> {
    replace_from(s, pat, rep, 0)
}

/// `str::replacen(s, pat, rep, 1)`: only the first occurrence is replaced.
pub open spec fn replace_first(s: Seq<char>, pat: Seq<char>, rep: Seq<char>) -> Seq<char> {
    match find(s, pat) {
        Some(j) => s.subrange(0, j) + rep + s.subrange(j + pat.len(), s.len() as int),
        None => s,
    }
}

/// Inserting `ins` at index `pos` of `s`.
pub open spec fn insert_at(s: Seq<char>, pos: int, ins: Seq<char>) -> Seq<char> {
    s.subrange(0, pos) + ins + s.subrange(pos, s.len() as int)
}

/// `s` without its trailing `c` characters (`str::trim_end_matches(c)`).
pub open spec fn trim_end_char(s: Seq<char>, c: char) -> Seq<char>
    decreases s.len(),
{
    if s.len() > 0 && s.last() == c {
        trim_end_char(s.drop_last(), c)
    } else {
        s
    }
}

/// `s` without its leading `c` characters (`str::trim_start_matches(c)`).
pub open spec fn trim_start_char(s: Seq<char>, c: char) -> Seq<char>
    decreases s.len(),
{
    if s.len() > 0 && s[0] == c {
        trim_start_char(s.drop_first(), c)
    } else {
        s
    }
}

/// `str::trim_end_matches(c)` on characters: the length of what stays.
pub fn trim_end_char_exec(s: &[char], c: char) -> (res: usize)
    ensures
        res <= s@.len(),
        s@.subrange(0, res as int) == trim_end_char(s@, c),
{
    let mut n: usize = s.len();
    assert(s@.subrange(0, n as int) == s@);
    while n > 0 && s[n - 1] == c
        invariant
            n <= s@.len(),
            trim_end_char(s@.subrange(0, n as int), c) == trim_end_char(s@, c),
        decreases n,
    {
        assert(s@.subrange(0, n as int).drop_last() == s@.subrange(0, n - 1));
        n = n - 1;
    }
    n
}

/// `str::trim_start_matches(c)` on characters: where what stays begins.
pub fn trim_start_char_exec(s: &[char], c: char) -> (res: usize)
    ensures
        res <= s@.len(),
        s@.subrange(res as int, s@.len() as int) == trim_start_char(s@, c),
{
    let mut n: usize = 0;
    assert(s@.subrange(0, s@.len() as int) == s@);
    while n < s.len() && s[n] == c
        invariant
            n <= s@.len(),
            trim_start_char(s@.subrange(n as int, s@.len() as int), c) == trim_start_char(s@, c),
        decreases s.len() - n,
    {
        assert(s@.subrange(n as int, s@.len() as int).drop_first() == s@.subrange(
            n + 1,
            s@.len() as int,
        ));
        n = n + 1;
    }
    n
}

/// The characters of `s`.
pub fn chars_of(s: &str) -> (res: Vec<char>)
    ensures
        res@ == s@,
{
    let mut v: Vec<char> = Vec::new();
    for c in it: s.chars()
        invariant
            v@ == it.seq().take(it.index() as int),
    {
        v.push(c);
    }
    v
}

/// A `String` holding the characters of `v`.
pub fn string_of(v: &[char]) -> (res: String)
    ensures
        res@ == v@,
{
    let mut s = String::new();
    for i in 0..v.len()
        invariant
            s@ == v@.take(i as int),
    {
        s.push(v[i]);
        assert(v@.take(i as int).push(v@[i as int]) == v@.take(i + 1));
    }
    assert(v@.take(v.len() as int) == v@);
    s
}

/// Appends the characters of `s` to `out`.
pub fn push_str(out: &mut Vec<char>, s: &str)
    ensures
        final(out)@ == old(out)@ + s@,
{
    let ghost start = out@;
    for c in it: s.chars()
        invariant
            out@ == start + it.seq().take(it.index() as int),
    {
        out.push(c);
    }
}

/// Appends `v[from..to]` to `out`.
pub fn push_range(out: &mut Vec<char>, v: &[char], from: usize, to: usize)
    requires
        from <= to <= v@.len(),
    ensures
        final(out)@ == old(out)@ + v@.subrange(from as int, to as int),
{
    let ghost start = out@;
    let mut i: usize = from;
    while i < to
        invariant
            from <= i <= to <= v@.len(),
            out@ == start + v@.subrange(from as int, i as int),
        decreases to - i,
    {
        out.push(v[i]);
        assert(v@.subrange(from as int, i as int).push(v@[i as int]) == v@.subrange(
            from as int,
            i + 1,
        ));
        i = i + 1;
    }
}

/// Whether `pat` occurs in `s` at index `i`.
pub fn matches_at_exec(s: &[char], i: usize, pat: &[char]) -> (res: bool)
    ensures
        res == matches_at(s@, i as int, pat@),
{
    if pat.len() > s.len() || i > s.len() - pat.len() {
        return false;
    }
    let mut k: usize = 0;
    while k < pat.len()
        invariant
            i + pat@.len() <= s@.len(),
            s@.len() == s.len(),
            k <= pat@.len(),
            forall|m: int| 0 <= m < k ==> s@[i + m] == pat@[m],
        decreases pat.len() - k,
    {
        assert(i + k < s@.len());
        if s[i + k] != pat[k] {
            assert(s@.subrange(i as int, i + pat@.len())[k as int] != pat@[k as int]);
            return false;
        }
        k = k + 1;
    }
    assert(s@.subrange(i as int, i + pat@.len()) =~= pat@);
    true
}

/// Facts about `find_from` that callers use.
pub proof fn lemma_find_from(s: Seq<char>, pat: Seq<char>, i: int)
    requires
        0 <= i,
    ensures
        find_from(s, pat, i) matches Some(j) ==> i <= j && matches_at(s, j, pat) && (forall|k: int|
            i <= k < j ==> !matches_at(s, k, pat)),
        find_from(s, pat, i) is None ==> forall|k: int| i <= k ==> !matches_at(s, k, pat),
    decreases s.len() + 1 - i,
{
    if i + pat.len() > s.len() {
    } else if matches_at(s, i, pat) {
    } else {
        lemma_find_from(s, pat, i + 1);
    }
}

/// A match at `j` preceded by none from `i` on is what `find_from` returns.
pub proof fn lemma_find_from_is(s: Seq<char>, pat: Seq<char>, i: int, j: int)
    requires
        0 <= i <= j,
        matches_at(s, j, pat),
        forall|k: int| i <= k < j ==> !matches_at(s, k, pat),
    ensures
        find_from(s, pat, i) == Some(j),
    decreases j - i,
{
    if i < j {
        lemma_find_from_is(s, pat, i + 1, j);
    }
}

/// `b` occurs in `a + b + c` where it starts.
pub proof fn lemma_matches_middle(a: Seq<char>, b: Seq<char>, c: Seq<char>)
    ensures
        matches_at(a + b + c, a.len() as int, b),
{
    assert((a + b + c).subrange(a.len() as int, (a.len() + b.len()) as int) =~= b);
}

/// An occurrence in `x` is one in `a + x + c` too, moved on by `a`.
pub proof fn lemma_matches_widen(x: Seq<char>, k: int, pat: Seq<char>, a: Seq<char>, c: Seq<char>)
    requires
        matches_at(x, k, pat),
    ensures
        matches_at(a + x + c, a.len() + k, pat),
{
    assert((a + x + c).subrange(a.len() + k, a.len() + k + pat.len()) =~= x.subrange(
        k,
        k + pat.len(),
    ));
}

/// An occurrence inside an occurrence is an occurrence.
pub proof fn lemma_matches_nested(s: Seq<char>, k: int, mid: Seq<char>, j: int, pat: Seq<char>)
    requires
        matches_at(s, k, mid),
        matches_at(mid, j, pat),
    ensures
        matches_at(s, k + j, pat),
{
    assert(s.subrange(k + j, k + j + pat.len()) =~= mid.subrange(j, j + pat.len())) by {
        assert forall|m: int| 0 <= m < pat.len() implies #[trigger] s.subrange(
            k + j,
            k + j + pat.len(),
        )[m] == mid.subrange(j, j + pat.len())[m] by {
            assert(s.subrange(k, k + mid.len())[j + m] == s[k + j + m]);
        }
    }
}

/// A text with an occurrence of `pat` contains `pat`.
pub proof fn lemma_contains_at(s: Seq<char>, k: int, pat: Seq<char>)
    requires
        matches_at(s, k, pat),
    ensures
        contains(s, pat),
{
    lemma_find_from(s, pat, 0);
}

/// No match from `i` on means `find_from` finds nothing.
pub proof fn lemma_find_from_none(s: Seq<char>, pat: Seq<char>, i: int)
    requires
        0 <= i,
        forall|k: int| i <= k ==> !matches_at(s, k, pat),
    ensures
        find_from(s, pat, i) is None,
    decreases s.len() + 1 - i,
{
    if i + pat.len() <= s.len() {
        lemma_find_from_none(s, pat, i + 1);
    }
}

/// The first index `j >= i` at which `pat` occurs in `s`.
pub fn find_from_exec(s: &[char], pat: &[char], i: usize) -> (res: Option<usize>)
    ensures
        res matches Some(j) ==> find_from(s@, pat@, i as int) == Some(j as int),
        res is None ==> find_from(s@, pat@, i as int) is None,
{
    if pat.len() > s.len() {
        proof {
            lemma_find_from_none(s@, pat@, i as int);
        }
        return None;
    }
    let last: usize = s.len() - pat.len();
    let mut j: usize = i;
    assert(s@.len() == s.len());
    if j > last {
        proof {
            lemma_find_from_none(s@, pat@, i as int);
        }
        return None;
    }
    loop
        invariant
            i <= j <= last,
            last + pat@.len() == s@.len(),
            forall|k: int| i <= k < j ==> !matches_at(s@, k, pat@),
        ensures
            forall|k: int| i <= k <= last ==> !matches_at(s@, k, pat@),
        decreases last - j,
    {
        if matches_at_exec(s, j, pat) {
            proof {
                lemma_find_from_is(s@, pat@, i as int, j as int);
            }
            return Some(j);
        }
        if j == last {
            break;
        }
        j = j + 1;
    }
    assert forall|k: int| i <= k implies !matches_at(s@, k, pat@) by {
        if k > last {
            assert(k + pat@.len() > s@.len());
        }
    }
    proof {
        lemma_find_from_none(s@, pat@, i as int);
    }
    None
}

/// The last occurrence of `pat` in `s`.
pub fn rfind_exec(s: &[char], pat: &[char]) -> (res: Option<usize>)
    ensures
        res matches Some(j) ==> rfind(s@, pat@) == Some(j as int) && matches_at(
            s@,
            j as int,
            pat@,
        ),
        res is None ==> rfind(s@, pat@) is None,
{
    if pat.len() > s.len() {
        return None;
    }
    let mut j: usize = s.len() - pat.len();
    loop
        invariant
            j + pat@.len() <= s@.len(),
            rfind(s@, pat@) == rfind_upto(s@, pat@, j as int),
        decreases j,
    {
        if matches_at_exec(s, j, pat) {
            return Some(j);
        }
        if j == 0 {
            assert(rfind_upto(s@, pat@, -1) is None);
            return None;
        }
        j = j - 1;
    }
}

/// Unfolding `replace_from` one step at index `i`.
pub proof fn lemma_replace_step(s: Seq<char>, pat: Seq<char>, rep: Seq<char>, i: int)
    requires
        0 <= i < s.len(),
        pat.len() > 0,
    ensures
        matches_at(s, i, pat) ==> replace_from(s, pat, rep, i) == rep + replace_from(
            s,
            pat,
            rep,
            i + pat.len(),
        ),
        !matches_at(s, i, pat) ==> replace_from(s, pat, rep, i) == seq![s[i]] + replace_from(
            s,
            pat,
            rep,
            i + 1,
        ),
{
}

/// `str::replace` on characters, for a non-empty pattern.
pub fn replace_all_exec(s: &[char], pat: &[char], rep: &[char]) -> (res: Vec<char>)
    requires
        pat@.len() > 0,
    ensures
        res@ == replace_all(s@, pat@, rep@),
{
    let mut out: Vec<char> = Vec::new();
    let mut i: usize = 0;
    while i < s.len()
        invariant
            i <= s@.len(),
            pat@.len() > 0,
            out@ + replace_from(s@, pat@, rep@, i as int) == replace_all(s@, pat@, rep@),
        decreases s.len() - i,
    {
        proof {
            lemma_replace_step(s@, pat@, rep@, i as int);
        }
        if matches_at_exec(s, i, pat) {
            push_range(&mut out, rep, 0, rep.len());
            assert(rep@.subrange(0, rep@.len() as int) == rep@);
            i = i + pat.len();
        } else {
            out.push(s[i]);
            i = i + 1;
        }
    }
    assert(out@ + replace_from(s@, pat@, rep@, i as int) == out@);
    out
}

/// `str::replacen(s, pat, rep, 1)` on characters.
pub fn replace_first_exec(s: &[char], pat: &[char], rep: &[char]) -> (res: Vec<char>)
    ensures
        res@ == replace_first(s@, pat@, rep@),
{
    match find_from_exec(s, pat, 0) {
        Some(j) => {
            proof {
                lemma_find_from(s@, pat@, 0);
            }
            assert(matches_at(s@, j as int, pat@));
            assert(s@.len() == s.len());
            let mut out: Vec<char> = Vec::new();
            push_range(&mut out, s, 0, j);
            push_range(&mut out, rep, 0, rep.len());
            push_range(&mut out, s, j + pat.len(), s.len());
            assert(rep@.subrange(0, rep@.len() as int) == rep@);
            out
        },
        None => {
            let mut out: Vec<char> = Vec::new();
            push_range(&mut out, s, 0, s.len());
            assert(s@.subrange(0, s@.len() as int) == s@);
            out
        },
    }
}

/// `s` with `ins` inserted at index `pos`.
pub fn insert_at_exec(s: &[char], pos: usize, ins: &[char]) -> (res: Vec<char>)
    requires
        pos <= s@.len(),
    ensures
        res@ == insert_at(s@, pos as int, ins@),
{
    let mut out: Vec<char> = Vec::new();
    push_range(&mut out, s, 0, pos);
    push_range(&mut out, ins, 0, ins.len());
    push_range(&mut out, s, pos, s.len());
    assert(ins@.subrange(0, ins@.len() as int) == ins@);
    out
}

/// Whether two character sequences are equal.
pub fn chars_eq(a: &Vec<char>, b: &Vec<char>) -> (res: bool)
    ensures
        res == (a@ == b@),
{
    if a.len() != b.len() {
        return false;
    }
    let mut i: usize = 0;
    while i < a.len()
        invariant
            i <= a@.len() == b@.len(),
            forall|m: int| 0 <= m < i ==> a@[m] == b@[m],
        decreases a.len() - i,
    {
        if a[i] != b[i] {
            return false;
        }
        i = i + 1;
    }
    assert(a@ =~= b@);
    true
}

} // verus!
