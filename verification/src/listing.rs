//! The listing order of posts (newest first) and the tag pages of a site.

use vstd::prelude::*;

use crate::dates::{is_after, reading_after, Instant};
use crate::model::PostMeta;
use crate::strings::{chars_eq, chars_of, string_of};
use crate::text::{slug, slug_chars};

verus! {

/// Post `a` is listed before post `b`: its date reads as newer, or the two
/// read alike and `a` came first (the sort is stable).
pub open spec fn listed_before(keys: Seq<Option<Instant>>, a: int, b: int) -> bool {
    reading_after(keys[a], keys[b]) || (!reading_after(keys[b], keys[a]) && a < b)
}

/// `order` lists every post exactly once, newest first; posts whose dates read
/// alike (or not at all) keep their given order.
pub open spec fn is_newest_first(keys: Seq<Option<Instant>>, order: Seq<usize>) -> bool {
    &&& order.len() == keys.len()
    &&& forall|i: int| 0 <= i < order.len() ==> #[trigger] order[i] < keys.len()
    &&& forall|i: int, j: int|
        0 <= i < j < order.len() ==> #[trigger] order[i] != #[trigger] order[j]
    &&& forall|i: int, j: int|
        0 <= i < j < order.len() ==> listed_before(keys, #[trigger] order[i] as int, #[trigger] order[j] as int)
}

/// Posts whose dates do not read as a date or timestamp are listed after all
/// posts whose dates do.
pub proof fn lemma_unreadable_last(keys: Seq<Option<Instant>>, order: Seq<usize>, i: int, j: int)
    requires
        is_newest_first(keys, order),
        0 <= i < j < order.len(),
        keys[order[i] as int] is None,
    ensures
        keys[order[j] as int] is None,
{
    assert(listed_before(keys, order[i] as int, order[j] as int));
}

/// `reading_after` is a strict weak order: irreflexive, transitive, and
/// anything after `a` is after whatever `a` is not before.
pub proof fn lemma_reading_after_order(x: Option<Instant>, a: Option<Instant>, b: Option<Instant>)
    ensures
        !reading_after(x, x),
        reading_after(x, a) && reading_after(a, b) ==> reading_after(x, b),
        reading_after(x, a) && !reading_after(b, a) ==> reading_after(x, b),
{
}

/// The order in which to list posts whose dates read as `keys`: newest
/// first, unreadable dates last, ties in their given order. Element `i`
/// of the result is the index of the `i`-th post to list.
pub fn newest_first(keys: &Vec<Option<Instant>>) -> (res: Vec<usize>)
    ensures
        is_newest_first(keys@, res@),
{
    let mut order: Vec<usize> = Vec::new();
    let mut i: usize = 0;
    while i < keys.len()
        invariant
            i <= keys@.len(),
            order@.len() == i,
            forall|m: int| 0 <= m < order@.len() ==> #[trigger] order@[m] < i,
            forall|m: int, n: int|
                0 <= m < n < order@.len() ==> #[trigger] order@[m] != #[trigger] order@[n],
            forall|m: int, n: int|
                0 <= m < n < order@.len() ==> listed_before(
                    keys@,
                    #[trigger] order@[m] as int,
                    #[trigger] order@[n] as int,
                ),
        decreases keys.len() - i,
    {
        let mut pos: usize = 0;
        while pos < order.len() && !is_after(&keys[i], &keys[order[pos]])
            invariant
                i < keys@.len(),
                pos <= order@.len(),
                forall|m: int| 0 <= m < order@.len() ==> #[trigger] order@[m] < i,
                forall|m: int|
                    0 <= m < pos ==> !reading_after(keys@[i as int], keys@[#[trigger] order@[m] as int]),
            decreases order.len() - pos,
        {
            pos = pos + 1;
        }
        proof {
            assert forall|m: int| pos <= m < order@.len() implies reading_after(
                keys@[i as int],
                keys@[#[trigger] order@[m] as int],
            ) by {
                if m > pos {
                    assert(listed_before(keys@, order@[pos as int] as int, order@[m] as int));
                    lemma_reading_after_order(
                        keys@[i as int],
                        keys@[order@[pos as int] as int],
                        keys@[order@[m] as int],
                    );
                }
            }
        }
        let ghost old_order = order@;
        order.insert(pos, i);
        proof {
            assert forall|m: int, n: int| 0 <= m < n < order@.len() implies listed_before(
                keys@,
                #[trigger] order@[m] as int,
                #[trigger] order@[n] as int,
            ) by {
                if m < pos && n == pos {
                    assert(order@[m] == old_order[m]);
                    assert(order@[n] == i);
                } else if m == pos {
                    assert(order@[n] == old_order[n - 1]);
                } else if m < pos && n < pos {
                    assert(order@[m] == old_order[m] && order@[n] == old_order[n]);
                } else if m < pos {
                    assert(order@[m] == old_order[m] && order@[n] == old_order[n - 1]);
                } else {
                    assert(order@[m] == old_order[m - 1] && order@[n] == old_order[n - 1]);
                }
            }
            assert forall|m: int, n: int| 0 <= m < n < order@.len() implies #[trigger] order@[m]
                != #[trigger] order@[n] by {
                if m < pos {
                    assert(order@[m] == old_order[m]);
                } else if m > pos {
                    assert(order@[m] == old_order[m - 1]);
                }
                if n < pos {
                    assert(order@[n] == old_order[n]);
                } else if n > pos {
                    assert(order@[n] == old_order[n - 1]);
                }
            }
            assert forall|m: int| 0 <= m < order@.len() implies #[trigger] order@[m] < i + 1 by {
                if m < pos {
                    assert(order@[m] == old_order[m]);
                } else if m > pos {
                    assert(order@[m] == old_order[m - 1]);
                }
            }
        }
        i = i + 1;
    }
    order
}

/// `a` sorts before `b` the way `String`'s `Ord` compares them (UTF-8 byte
/// order, which is code point order).
pub open spec fn text_lt(a: Seq<char>, b: Seq<char>) -> bool
    decreases a.len(),
{
    if a.len() == 0 {
        b.len() > 0
    } else if b.len() == 0 {
        false
    } else if a[0] != b[0] {
        a[0] < b[0]
    } else {
        text_lt(a.drop_first(), b.drop_first())
    }
}

proof fn lemma_text_lt_irreflexive(a: Seq<char>)
    ensures
        !text_lt(a, a),
    decreases a.len(),
{
    if a.len() > 0 {
        lemma_text_lt_irreflexive(a.drop_first());
    }
}

proof fn lemma_text_lt_asymmetric(a: Seq<char>, b: Seq<char>)
    ensures
        text_lt(a, b) ==> !text_lt(b, a),
    decreases a.len(),
{
    if a.len() > 0 && b.len() > 0 {
        lemma_text_lt_asymmetric(a.drop_first(), b.drop_first());
    }
}

proof fn lemma_text_lt_transitive(a: Seq<char>, b: Seq<char>, c: Seq<char>)
    ensures
        text_lt(a, b) && text_lt(b, c) ==> text_lt(a, c),
    decreases a.len(),
{
    if a.len() > 0 && b.len() > 0 && c.len() > 0 {
        lemma_text_lt_transitive(a.drop_first(), b.drop_first(), c.drop_first());
    }
}

proof fn lemma_text_lt_total(a: Seq<char>, b: Seq<char>)
    ensures
        a != b ==> text_lt(a, b) || text_lt(b, a),
    decreases a.len(),
{
    if a.len() > 0 && b.len() > 0 {
        lemma_text_lt_total(a.drop_first(), b.drop_first());
        if a != b && a[0] == b[0] {
            assert(a.drop_first() != b.drop_first()) by {
                if a.drop_first() == b.drop_first() {
                    assert(a =~= seq![a[0]] + a.drop_first());
                    assert(b =~= seq![b[0]] + b.drop_first());
                }
            }
        }
    } else if a.len() == 0 && b.len() == 0 {
        assert(a =~= b);
    }
}

/// `text_lt` is a strict total order.
pub proof fn lemma_text_lt_order(a: Seq<char>, b: Seq<char>, c: Seq<char>)
    ensures
        !text_lt(a, a),
        text_lt(a, b) ==> !text_lt(b, a),
        text_lt(a, b) && text_lt(b, c) ==> text_lt(a, c),
        a != b ==> text_lt(a, b) || text_lt(b, a),
{
    lemma_text_lt_irreflexive(a);
    lemma_text_lt_asymmetric(a, b);
    lemma_text_lt_transitive(a, b, c);
    lemma_text_lt_total(a, b);
}

/// Whether `a` sorts before `b`.
fn text_lt_exec(a: &Vec<char>, b: &Vec<char>) -> (res: bool)
    ensures
        res == text_lt(a@, b@),
{
    let mut i: usize = 0;
    assert(a@.subrange(0, a@.len() as int) == a@);
    assert(b@.subrange(0, b@.len() as int) == b@);
    loop
        invariant
            i <= a@.len(),
            i <= b@.len(),
            text_lt(a@, b@) == text_lt(
                a@.subrange(i as int, a@.len() as int),
                b@.subrange(i as int, b@.len() as int),
            ),
        decreases a@.len() - i,
    {
        if i == a.len() {
            return i < b.len();
        }
        if i == b.len() {
            return false;
        }
        if a[i] != b[i] {
            return a[i] < b[i];
        }
        assert(a@.subrange(i as int, a@.len() as int).drop_first() == a@.subrange(
            i + 1,
            a@.len() as int,
        ));
        assert(b@.subrange(i as int, b@.len() as int).drop_first() == b@.subrange(
            i + 1,
            b@.len() as int,
        ));
        i = i + 1;
    }
}

/// The tags of the posts, in order.
pub open spec fn post_tags(posts: Seq<PostMeta>) -> Seq<Seq<char>>
    decreases posts.len(),
{
    if posts.len() == 0 {
        seq![]
    } else {
        post_tags(posts.drop_last()) + posts.last().tags@.map_values(|t: String| t@)
    }
}

/// The first of `tags` whose slug is `x`.
pub open spec fn first_with_slug(tags: Seq<Seq<char>>, x: Seq<char>) -> Option<Seq<char>>
    decreases tags.len(),
{
    if tags.len() == 0 {
        None
    } else {
        match first_with_slug(tags.drop_last(), x) {
            Some(t) => Some(t),
            None => if slug(tags.last()) == x {
                Some(tags.last())
            } else {
                None
            },
        }
    }
}

/// `pages` are the tag pages of `tags`: one per non-empty tag slug, sorted by
/// slug, each named by the first tag with that slug (distinct tags that
/// slugify alike share one page).
pub open spec fn is_tag_index(tags: Seq<Seq<char>>, pages: Seq<(Seq<char>, Seq<char>)>) -> bool {
    &&& forall|i: int, j: int|
        0 <= i < j < pages.len() ==> text_lt(#[trigger] pages[i].0, #[trigger] pages[j].0)
    &&& forall|i: int|
        0 <= i < pages.len() ==> (#[trigger] pages[i]).0.len() > 0 && first_with_slug(
            tags,
            pages[i].0,
        ) == Some(pages[i].1)
    &&& forall|x: Seq<char>|
        x.len() > 0 && #[trigger] first_with_slug(tags, x) is Some ==> exists|i: int|
            0 <= i < pages.len() && pages[i].0 == x
}

/// The pairs' views.
pub open spec fn pairs_view(v: Seq<(String, String)>) -> Seq<(Seq<char>, Seq<char>)> {
    v.map_values(|p: (String, String)| (p.0@, p.1@))
}

/// The tag pages for the posts: `(slug, name)` pairs, sorted by slug, each
/// named by the first tag (in post order) with that slug; empty slugs get no
/// page.
pub fn tag_pages(posts: &[PostMeta]) -> (res: Vec<(String, String)>)
    ensures
        is_tag_index(post_tags(posts@), pairs_view(res@)),
{
    let mut pages: Vec<(String, String)> = Vec::new();
    let mut keys: Vec<Vec<char>> = Vec::new();
    let ghost mut seen: Seq<Seq<char>> = seq![];
    let mut pi: usize = 0;
    while pi < posts.len()
        invariant
            pi <= posts@.len(),
            seen == post_tags(posts@.take(pi as int)),
            keys@.len() == pages@.len(),
            forall|m: int| 0 <= m < keys@.len() ==> (#[trigger] keys@[m])@ == pages@[m].0@,
            is_tag_index(seen, pairs_view(pages@)),
        decreases posts.len() - pi,
    {
        let tags = &posts[pi].tags;
        let ghost base = seen;
        let mut ti: usize = 0;
        while ti < tags.len()
            invariant
                ti <= tags@.len(),
                seen == base + tags@.map_values(|t: String| t@).take(ti as int),
                keys@.len() == pages@.len(),
                forall|m: int| 0 <= m < keys@.len() ==> (#[trigger] keys@[m])@ == pages@[m].0@,
                is_tag_index(seen, pairs_view(pages@)),
            decreases tags.len() - ti,
        {
            let t = &tags[ti];
            let x = slug_chars(&chars_of(t.as_str()));
            let ghost old_seen = seen;
            let ghost old_pages = pairs_view(pages@);
            proof {
                seen = seen.push(t@);
                assert(seen == base + tags@.map_values(|t: String| t@).take(ti + 1));
                assert(seen.drop_last() == old_seen);
            }
            if x.len() > 0 {
                let mut pos: usize = 0;
                while pos < keys.len() && text_lt_exec(&keys[pos], &x)
                    invariant
                        pos <= keys@.len(),
                        keys@.len() == pages@.len(),
                        forall|m: int| 0 <= m < pos ==> text_lt(#[trigger] keys@[m]@, x@),
                    decreases keys.len() - pos,
                {
                    pos = pos + 1;
                }
                let present = pos < keys.len() && chars_eq(&keys[pos], &x);
                if !present {
                    proof {
                        assert forall|m: int| pos <= m < old_pages.len() implies text_lt(
                            x@,
                            #[trigger] old_pages[m].0,
                        ) by {
                            assert(keys@[m]@ == old_pages[m].0);
                            assert(keys@[pos as int]@ == old_pages[pos as int].0);
                            lemma_text_lt_order(keys@[pos as int]@, x@, keys@[m]@);
                            lemma_text_lt_order(x@, keys@[pos as int]@, keys@[m]@);
                            if m > pos {
                                assert(text_lt(old_pages[pos as int].0, old_pages[m].0));
                            }
                        }
                        assert forall|m: int| 0 <= m < old_pages.len() implies (#[trigger] old_pages[m]).0
                            != x@ by {
                            assert(keys@[m]@ == old_pages[m].0);
                            lemma_text_lt_order(x@, x@, x@);
                        }
                        assert forall|m: int| 0 <= m < pos implies text_lt(
                            #[trigger] old_pages[m].0,
                            x@,
                        ) by {
                            assert(keys@[m]@ == old_pages[m].0);
                        }
                    }
                    let ghost old_keys = keys@;
                    keys.insert(pos, x);
                    pages.insert(pos, (string_of(&keys[pos]), string_of(&chars_of(t.as_str()))));
                    assert(pairs_view(pages@) =~= old_pages.insert(pos as int, (x@, t@)));
                    proof {
                        lemma_insert_page(old_seen, seen, old_pages, pairs_view(pages@), pos as int, t@);
                    }
                } else {
                    proof {
                        lemma_keep_pages(old_seen, seen, old_pages, pos as int, t@);
                    }
                }
            } else {
                proof {
                    lemma_keep_pages_unslugged(old_seen, seen, old_pages, t@);
                }
            }
            ti = ti + 1;
        }
        proof {
            assert(tags@.map_values(|t: String| t@).take(tags@.len() as int) == tags@.map_values(|t: String| t@));
            assert(posts@.take(pi + 1).drop_last() == posts@.take(pi as int));
            assert(posts@.take(pi + 1).last() == posts@[pi as int]);
        }
        pi = pi + 1;
    }
    assert(posts@.take(posts@.len() as int) == posts@);
    pages
}

/// Adding a tag whose slug is new: its page goes in at `pos`.
proof fn lemma_insert_page(
    old_seen: Seq<Seq<char>>,
    seen: Seq<Seq<char>>,
    old_pages: Seq<(Seq<char>, Seq<char>)>,
    pages: Seq<(Seq<char>, Seq<char>)>,
    pos: int,
    t: Seq<char>,
)
    requires
        seen == old_seen.push(t),
        slug(t).len() > 0,
        is_tag_index(old_seen, old_pages),
        0 <= pos <= old_pages.len(),
        pages == old_pages.insert(pos, (slug(t), t)),
        forall|m: int| 0 <= m < pos ==> text_lt(#[trigger] old_pages[m].0, slug(t)),
        forall|m: int| pos <= m < old_pages.len() ==> text_lt(slug(t), #[trigger] old_pages[m].0),
        forall|m: int| 0 <= m < old_pages.len() ==> (#[trigger] old_pages[m]).0 != slug(t),
    ensures
        is_tag_index(seen, pages),
{
    let x = slug(t);
    assert(seen.drop_last() == old_seen);
    assert(first_with_slug(old_seen, x) is None) by {
        if first_with_slug(old_seen, x) is Some {
            let i = choose|i: int| 0 <= i < old_pages.len() && old_pages[i].0 == x;
        }
    }
    assert forall|i: int, j: int| 0 <= i < j < pages.len() implies text_lt(
        #[trigger] pages[i].0,
        #[trigger] pages[j].0,
    ) by {
        if i < pos && j < pos {
            assert(pages[i] == old_pages[i] && pages[j] == old_pages[j]);
        } else if i < pos && j == pos {
            assert(pages[i] == old_pages[i]);
        } else if i < pos {
            assert(pages[i] == old_pages[i] && pages[j] == old_pages[j - 1]);
        } else if i == pos {
            assert(pages[j] == old_pages[j - 1]);
        } else {
            assert(pages[i] == old_pages[i - 1] && pages[j] == old_pages[j - 1]);
        }
    }
    assert forall|i: int| 0 <= i < pages.len() implies (#[trigger] pages[i]).0.len() > 0
        && first_with_slug(seen, pages[i].0) == Some(pages[i].1) by {
        if i != pos {
            let k: int = if i < pos {
                i
            } else {
                i - 1
            };
            assert(pages[i] == old_pages[k]);
        }
    }
    assert forall|y: Seq<char>| y.len() > 0 && #[trigger] first_with_slug(seen, y) is Some implies exists|i: int|
        0 <= i < pages.len() && pages[i].0 == y by {
        if first_with_slug(old_seen, y) is Some {
            let i = choose|i: int| 0 <= i < old_pages.len() && old_pages[i].0 == y;
            if i < pos {
                assert(pages[i] == old_pages[i]);
            } else {
                assert(pages[i + 1] == old_pages[i]);
            }
        } else {
            assert(y == x);
            assert(pages[pos].0 == y);
        }
    }
}

/// Adding a tag whose slug already has a page changes nothing.
proof fn lemma_keep_pages(
    old_seen: Seq<Seq<char>>,
    seen: Seq<Seq<char>>,
    pages: Seq<(Seq<char>, Seq<char>)>,
    pos: int,
    t: Seq<char>,
)
    requires
        seen == old_seen.push(t),
        is_tag_index(old_seen, pages),
        0 <= pos < pages.len(),
        pages[pos].0 == slug(t),
    ensures
        is_tag_index(seen, pages),
{
    assert(seen.drop_last() == old_seen);
    assert forall|i: int| 0 <= i < pages.len() implies (#[trigger] pages[i]).0.len() > 0
        && first_with_slug(seen, pages[i].0) == Some(pages[i].1) by {}
    assert forall|y: Seq<char>| y.len() > 0 && #[trigger] first_with_slug(seen, y) is Some implies exists|i: int|
        0 <= i < pages.len() && pages[i].0 == y by {
        if first_with_slug(old_seen, y) is None {
            assert(y == slug(t));
            assert(pages[pos].0 == y);
        }
    }
}

/// Adding a tag with an empty slug changes nothing.
proof fn lemma_keep_pages_unslugged(
    old_seen: Seq<Seq<char>>,
    seen: Seq<Seq<char>>,
    pages: Seq<(Seq<char>, Seq<char>)>,
    t: Seq<char>,
)
    requires
        seen == old_seen.push(t),
        is_tag_index(old_seen, pages),
        slug(t).len() == 0,
    ensures
        is_tag_index(seen, pages),
{
    assert(seen.drop_last() == old_seen);
    assert forall|i: int| 0 <= i < pages.len() implies (#[trigger] pages[i]).0.len() > 0
        && first_with_slug(seen, pages[i].0) == Some(pages[i].1) by {}
    assert forall|y: Seq<char>| y.len() > 0 && #[trigger] first_with_slug(seen, y) is Some implies exists|i: int|
        0 <= i < pages.len() && pages[i].0 == y by {
        assert(first_with_slug(old_seen, y) is Some);
    }
}

} // verus!
