//! Filtering and ordering of a document snapshot: free-text and tag search,
//! listing order, and the set of all tags.
use vstd::prelude::*;
use crate::document::{slugs_distinct, DocumentSet, Post};
use crate::text::{
    chars_lt, chars_of, contains_chars, is_blank, lemma_seq_lt_asymmetric,
    lemma_seq_lt_irreflexive, lemma_seq_lt_transitive, lowercase, lower_of, seq_contains, seq_lt,
    lemma_seq_lt_total, str_lt, trimmed,
};

verus! {

broadcast use {vstd::seq_lib::group_to_multiset_ensures, vstd::seq_lib::group_filter_ensures};

/// `p` is listed before `q`: a later date first, then the smaller slug.
pub open spec fn ranks_before(p: Post, q: Post) -> bool {
    seq_lt(q.frontmatter.date@, p.frontmatter.date@) || (p.frontmatter.date@
        == q.frontmatter.date@ && seq_lt(p.slug@, q.slug@))
}

/// No document of `s` is listed before one that precedes it.
pub open spec fn in_listing_order(s: Seq<Post>) -> bool {
    forall|i: int, j: int| 0 <= i < j < s.len() ==> !ranks_before(#[trigger] s[j], #[trigger] s[i])
}

/// The documents that references point to.
pub open spec fn posts_of(s: Seq<&Post>) -> Seq<Post> {
    s.map_values(|p: &Post| *p)
}

/// The optional string as a character sequence.
pub open spec fn opt_chars(o: Option<&str>) -> Option<Seq<char>> {
    match o {
        Some(s) => Some(s@),
        None => None,
    }
}

/// The lowercased title or body of `p` contains `lower_query`.
pub open spec fn text_matches(p: Post, lower_query: Seq<char>) -> bool {
    seq_contains(lower_of(p.frontmatter.title@), lower_query) || seq_contains(
        lower_of(p.content@),
        lower_query,
    )
}

/// `tags` is present and holds `tag` exactly.
pub open spec fn tagged(tags: Option<Vec<String>>, tag: Seq<char>) -> bool {
    match tags {
        Some(v) => exists|i: int| 0 <= i < v@.len() && v@[i]@ == tag,
        None => false,
    }
}

/// `p` passes both filters; a missing or blank filter passes everything.
pub open spec fn selected(p: Post, q: Option<Seq<char>>, tag: Option<Seq<char>>) -> bool {
    &&& match q {
        Some(q) => trimmed(q).len() == 0 || text_matches(p, lower_of(q)),
        None => true,
    }
    &&& match tag {
        Some(t) => trimmed(t).len() == 0 || tagged(p.frontmatter.tags, t),
        None => true,
    }
}

pub proof fn lemma_ranks_before_transitive(a: Post, b: Post, c: Post)
    requires
        ranks_before(a, b),
        ranks_before(b, c),
    ensures
        ranks_before(a, c),
{
    let (da, db, dc) = (a.frontmatter.date@, b.frontmatter.date@, c.frontmatter.date@);
    if seq_lt(db, da) && seq_lt(dc, db) {
        lemma_seq_lt_transitive(dc, db, da);
    } else if seq_lt(a.slug@, b.slug@) && seq_lt(b.slug@, c.slug@) {
        lemma_seq_lt_transitive(a.slug@, b.slug@, c.slug@);
    }
}

pub proof fn lemma_ranks_before_asymmetric(a: Post, b: Post)
    requires
        ranks_before(a, b),
    ensures
        !ranks_before(b, a),
{
    let (da, db) = (a.frontmatter.date@, b.frontmatter.date@);
    if seq_lt(db, da) {
        lemma_seq_lt_asymmetric(db, da);
        lemma_seq_lt_irreflexive(da);
    } else {
        lemma_seq_lt_asymmetric(a.slug@, b.slug@);
        lemma_seq_lt_irreflexive(da);
    }
}

proof fn lemma_ranks_before_total(a: Post, b: Post)
    requires
        a.slug@ != b.slug@,
    ensures
        ranks_before(a, b) || ranks_before(b, a),
{
    lemma_seq_lt_total(a.frontmatter.date@, b.frontmatter.date@);
    lemma_seq_lt_total(a.slug@, b.slug@);
}

/// Listing order leaves no freedom: two orderings of the same documents,
/// no two of which share a slug, are the same sequence. So repeated queries
/// over one snapshot list documents of equal date in one order, by slug.
pub proof fn lemma_listing_order_unique(a: Seq<Post>, b: Seq<Post>)
    requires
        in_listing_order(a),
        in_listing_order(b),
        slugs_distinct(a),
        a.to_multiset() == b.to_multiset(),
    ensures
        a == b,
    decreases a.len(),
{
    vstd::seq_lib::to_multiset_len(a);
    vstd::seq_lib::to_multiset_len(b);
    if a.len() == 0 {
        assert(a =~= b);
    } else {
        vstd::seq_lib::to_multiset_contains(a, b[0]);
        vstd::seq_lib::to_multiset_contains(b, a[0]);
        assert(a.to_multiset().count(b[0]) > 0);
        assert(b.to_multiset().count(a[0]) > 0);
        let m = choose|m: int| 0 <= m < a.len() && a[m] == b[0];
        let k = choose|k: int| 0 <= k < b.len() && b[k] == a[0];
        if a[0] != b[0] {
            assert(m != 0);
            assert(k != 0);
            assert(a[0].slug@ != a[m].slug@);
            lemma_ranks_before_total(a[0], b[0]);
            assert(!ranks_before(a[m], a[0]));
            assert(!ranks_before(b[k], b[0]));
        }
        vstd::seq_lib::to_multiset_remove(a, 0);
        vstd::seq_lib::to_multiset_remove(b, 0);
        assert(a.remove(0) =~= a.drop_first());
        assert(b.remove(0) =~= b.drop_first());
        let (a1, b1) = (a.drop_first(), b.drop_first());
        assert forall|i: int, j: int| 0 <= i < j < a1.len() implies !ranks_before(
            #[trigger] a1[j],
            #[trigger] a1[i],
        ) by {
            assert(!ranks_before(a[j + 1], a[i + 1]));
        }
        assert forall|i: int, j: int| 0 <= i < j < b1.len() implies !ranks_before(
            #[trigger] b1[j],
            #[trigger] b1[i],
        ) by {
            assert(!ranks_before(b[j + 1], b[i + 1]));
        }
        assert forall|i: int, j: int| 0 <= i < j < a1.len() implies a1[i].slug@ != a1[j].slug@ by {
            assert(a[i + 1].slug@ != a[j + 1].slug@);
        }
        lemma_listing_order_unique(a1, b1);
        assert(a.len() == b.len());
        assert forall|i: int| 0 <= i < a.len() implies a[i] == b[i] by {
            if i > 0 {
                assert(a[i] == a1[i - 1]);
                assert(b[i] == b1[i - 1]);
            }
        }
        assert(a =~= b);
    }
}

/// Whether `a` is listed before `b`.
pub fn listed_before(a: &Post, b: &Post) -> (r: bool)
    ensures
        r == ranks_before(*a, *b),
{
    if str_lt(b.frontmatter.date.as_str(), a.frontmatter.date.as_str()) {
        true
    } else if a.frontmatter.date == b.frontmatter.date {
        str_lt(a.slug.as_str(), b.slug.as_str())
    } else {
        false
    }
}

/// Whether a lowercased title or body contains a lowercased query.
pub fn matches_text(lower_title: &str, lower_body: &str, lower_query: &str) -> (r: bool)
    ensures
        r == (seq_contains(lower_title@, lower_query@) || seq_contains(lower_body@, lower_query@)),
{
    let q = chars_of(lower_query);
    let t = chars_of(lower_title);
    if contains_chars(&t, &q) {
        return true;
    }
    let b = chars_of(lower_body);
    contains_chars(&b, &q)
}

fn list_has(v: &Vec<String>, tag: &str) -> (r: bool)
    ensures
        r == exists|i: int| 0 <= i < v@.len() && v@[i]@ == tag@,
{
    let t = String::from_str(tag);
    let mut i: usize = 0;
    while i < v.len()
        invariant
            i <= v@.len(),
            t@ == tag@,
            forall|k: int| 0 <= k < i ==> v@[k]@ != tag@,
        decreases v.len() - i,
    {
        if v[i] == t {
            assert(v@[i as int]@ == tag@);
            return true;
        }
        i = i + 1;
    }
    false
}

/// Whether the tag list is present and holds `tag` exactly (case-sensitive).
pub fn has_tag(tags: &Option<Vec<String>>, tag: &str) -> (r: bool)
    ensures
        r == tagged(*tags, tag@),
{
    match tags {
        None => false,
        Some(v) => list_has(v, tag),
    }
}

/// Whether `p` passes the free-text and tag filters.
pub fn is_selected(p: &Post, q: Option<&str>, tag: Option<&str>) -> (r: bool)
    ensures
        r == selected(*p, opt_chars(q), opt_chars(tag)),
{
    let text_ok = match q {
        None => true,
        Some(q) => {
            if is_blank(q) {
                true
            } else {
                let lq = lowercase(q);
                let lt = lowercase(p.frontmatter.title.as_str());
                let lb = lowercase(p.content.as_str());
                matches_text(lt.as_str(), lb.as_str(), lq.as_str())
            }
        },
    };
    if !text_ok {
        return false;
    }
    match tag {
        None => true,
        Some(t) => is_blank(t) || has_tag(&p.frontmatter.tags, t),
    }
}

/// Inserts `p` into `out`, which is in listing order, keeping that order.
fn insert_listed<'a>(out: &mut Vec<&'a Post>, p: &'a Post)
    requires
        in_listing_order(posts_of(old(out)@)),
    ensures
        in_listing_order(posts_of(final(out)@)),
        exists|pos: int|
            0 <= pos <= old(out)@.len() && posts_of(final(out)@) == posts_of(old(out)@).insert(
                pos,
                *p,
            ),
{
    let ghost g = posts_of(out@);
    let mut pos: usize = 0;
    while pos < out.len() && !listed_before(p, out[pos])
        invariant
            pos <= out@.len(),
            g == posts_of(out@),
            forall|k: int| 0 <= k < pos ==> !ranks_before(*p, #[trigger] g[k]),
        decreases out.len() - pos,
    {
        pos = pos + 1;
    }
    out.insert(pos, p);
    let ghost t = g.insert(pos as int, *p);
    assert(posts_of(out@) =~= t);
    assert(posts_of(out@) == posts_of(old(out)@).insert(pos as int, *p));
    assert forall|i: int, j: int| 0 <= i < j < t.len() implies !ranks_before(
        #[trigger] t[j],
        #[trigger] t[i],
    ) by {
        if i < pos && j == pos {
        } else if i == pos && j > pos {
            // t[pos] is p and t[j] is g[j - 1], which follows g[pos] or is g[pos]
            assert(ranks_before(*p, g[pos as int]));
            if ranks_before(t[j], *p) {
                lemma_ranks_before_transitive(t[j], *p, g[pos as int]);
                if j - 1 == pos {
                    lemma_ranks_before_asymmetric(g[pos as int], g[pos as int]);
                } else {
                    assert(!ranks_before(g[j - 1], g[pos as int]));
                }
            }
        } else if i < pos && j > pos {
            assert(!ranks_before(g[j - 1], g[i]));
        } else if i > pos {
            assert(!ranks_before(g[j - 1], g[i - 1]));
        } else {
            assert(!ranks_before(g[j], g[i]));
        }
    }
}

/// The documents of `set` that pass the free-text filter `q` and the tag
/// filter `tag`, newest first and, within one date, by slug ascending.
pub fn query<'a>(set: &'a DocumentSet, q: Option<&str>, tag: Option<&str>) -> (r: Vec<&'a Post>)
    requires
        set.wf(),
    ensures
        posts_of(r@).to_multiset() == set.docs@.filter(
            |p: Post| selected(p, opt_chars(q), opt_chars(tag)),
        ).to_multiset(),
        in_listing_order(posts_of(r@)),
        slugs_distinct(posts_of(r@)),
{
    let ghost sel = |p: Post| selected(p, opt_chars(q), opt_chars(tag));
    let mut out: Vec<&'a Post> = Vec::new();
    let mut i: usize = 0;
    assert(posts_of(out@) =~= Seq::<Post>::empty());
    assert(set.docs@.take(0) =~= Seq::<Post>::empty());
    while i < set.docs.len()
        invariant
            i <= set.docs@.len(),
            sel == (|p: Post| selected(p, opt_chars(q), opt_chars(tag))),
            in_listing_order(posts_of(out@)),
            posts_of(out@).to_multiset() == set.docs@.take(i as int).filter(sel).to_multiset(),
            set.wf(),
            slugs_distinct(posts_of(out@)),
            forall|k: int|
                0 <= k < out@.len() ==> exists|j: int|
                    0 <= j < i && set.docs@[j] == #[trigger] posts_of(out@)[k],
        decreases set.docs.len() - i,
    {
        let p = &set.docs[i];
        assert(set.docs@.take(i + 1) =~= set.docs@.take(i as int).push(*p));
        proof {
            set.docs@.take(i as int).lemma_filter_push(*p, sel);
            vstd::seq_lib::to_multiset_build(set.docs@.take(i as int).filter(sel), *p);
        }
        if is_selected(p, q, tag) {
            let ghost g = posts_of(out@);
            insert_listed(&mut out, p);
            proof {
                let pos = choose|pos: int|
                    0 <= pos <= g.len() && posts_of(out@) == g.insert(pos, *p);
                let h = posts_of(out@);
                assert forall|k: int| 0 <= k < h.len() implies exists|j: int|
                    0 <= j < i + 1 && set.docs@[j] == #[trigger] h[k] by {
                    if k < pos {
                        assert(h[k] == g[k]);
                    } else if k > pos {
                        assert(h[k] == g[k - 1]);
                    } else {
                        assert(set.docs@[i as int] == h[k]);
                    }
                }
                assert forall|a: int, b: int| 0 <= a < b < h.len() implies h[a].slug@
                    != h[b].slug@ by {
                    if a != pos && b != pos {
                        let (ga, gb) = (if a < pos { a } else { a - 1 }, if b < pos { b } else { b - 1 });
                        assert(h[a] == g[ga] && h[b] == g[gb]);
                    } else {
                        let o = if a == pos { b } else { a };
                        let go = if o < pos { o } else { o - 1 };
                        assert(h[o] == g[go]);
                        let j = choose|j: int| 0 <= j < i && set.docs@[j] == #[trigger] g[go];
                        assert(set.docs@[j].slug@ != set.docs@[i as int].slug@);
                    }
                }
                vstd::seq_lib::to_multiset_insert(g, pos, *p);
            }
        } else {
            assert forall|k: int| 0 <= k < out@.len() implies exists|j: int|
                0 <= j < i + 1 && set.docs@[j] == #[trigger] posts_of(out@)[k] by {
                let j = choose|j: int| 0 <= j < i && set.docs@[j] == #[trigger] posts_of(out@)[k];
            }
        }
        i = i + 1;
    }
    assert(set.docs@.take(i as int) =~= set.docs@);
    out
}

/// Some document of `docs` carries the tag `t`.
pub open spec fn tag_in(docs: Seq<Post>, t: Seq<char>) -> bool {
    exists|k: int| 0 <= k < docs.len() && tagged(#[trigger] docs[k].frontmatter.tags, t)
}

/// The character sequences of a list of strings.
pub open spec fn views(s: Seq<String>) -> Seq<Seq<char>> {
    s.map_values(|x: String| x@)
}

/// Each string comes strictly before the next.
pub open spec fn strictly_ascending(s: Seq<Seq<char>>) -> bool {
    forall|i: int, j: int| 0 <= i < j < s.len() ==> seq_lt(#[trigger] s[i], #[trigger] s[j])
}

/// Adds `t` to an ascending list of distinct strings, unless it is there.
fn insert_tag(out: &mut Vec<String>, t: &String)
    requires
        strictly_ascending(views(old(out)@)),
    ensures
        strictly_ascending(views(final(out)@)),
        forall|x: Seq<char>| #[trigger]
            views(final(out)@).contains(x) <==> (views(old(out)@).contains(x) || x == t@),
{
    let ghost g = views(out@);
    let mut pos: usize = 0;
    while pos < out.len() && chars_lt(&chars_of(out[pos].as_str()), &chars_of(t.as_str()))
        invariant
            pos <= out@.len(),
            g == views(out@),
            forall|k: int| 0 <= k < pos ==> seq_lt(#[trigger] g[k], t@),
        decreases out.len() - pos,
    {
        pos = pos + 1;
    }
    if pos < out.len() && out[pos] == *t {
        assert(g[pos as int] == t@);
        return;
    }
    proof {
        if pos < g.len() {
            lemma_seq_lt_total(g[pos as int], t@);
        }
    }
    out.insert(pos, t.clone());
    let ghost h = g.insert(pos as int, t@);
    assert(views(out@) =~= h);
    assert forall|i: int, j: int| 0 <= i < j < h.len() implies seq_lt(
        #[trigger] h[i],
        #[trigger] h[j],
    ) by {
        if i < pos && j == pos {
        } else if i == pos && j > pos {
            if j - 1 > pos {
                assert(seq_lt(g[pos as int], g[j - 1]));
                lemma_seq_lt_transitive(t@, g[pos as int], g[j - 1]);
            }
        } else if i < pos && j > pos {
            assert(seq_lt(g[i], g[j - 1]));
        } else if i > pos {
            assert(seq_lt(g[i - 1], g[j - 1]));
        } else {
            assert(seq_lt(g[i], g[j]));
        }
    }
    assert forall|x: Seq<char>| #[trigger]
        h.contains(x) <==> (g.contains(x) || x == t@) by {
        if h.contains(x) {
            let k = choose|k: int| 0 <= k < h.len() && h[k] == x;
            if k < pos {
                assert(g[k] == x);
            } else if k > pos {
                assert(g[k - 1] == x);
            }
        }
        if g.contains(x) {
            let k = choose|k: int| 0 <= k < g.len() && g[k] == x;
            if k < pos {
                assert(h[k] == x);
            } else {
                assert(h[k + 1] == x);
            }
        }
        if x == t@ {
            assert(h[pos as int] == x);
        }
    }
}

fn insert_tags(out: &mut Vec<String>, v: &Vec<String>)
    requires
        strictly_ascending(views(old(out)@)),
    ensures
        strictly_ascending(views(final(out)@)),
        forall|t: Seq<char>| #[trigger]
            views(final(out)@).contains(t) <==> (views(old(out)@).contains(t) || exists|k: int|
                0 <= k < v@.len() && v@[k]@ == t),
{
    let ghost start = views(out@);
    let mut j: usize = 0;
    while j < v.len()
        invariant
            j <= v@.len(),
            strictly_ascending(views(out@)),
            forall|t: Seq<char>| #[trigger]
                views(out@).contains(t) <==> (start.contains(t) || exists|k: int|
                    0 <= k < j && v@[k]@ == t),
        decreases v.len() - j,
    {
        insert_tag(out, &v[j]);
        assert forall|t: Seq<char>| #[trigger]
            views(out@).contains(t) <==> (start.contains(t) || exists|k: int|
                0 <= k < j + 1 && v@[k]@ == t) by {
            if exists|k: int| 0 <= k < j + 1 && v@[k]@ == t {
                let k = choose|k: int| 0 <= k < j + 1 && v@[k]@ == t;
                if k < j {
                    assert(exists|k: int| 0 <= k < j && v@[k]@ == t);
                }
            }
        }
        j = j + 1;
    }
}

/// Every tag that some document of `set` carries, once each, ascending.
pub fn all_tags(set: &DocumentSet) -> (r: Vec<String>)
    ensures
        strictly_ascending(views(r@)),
        forall|t: Seq<char>| #[trigger] views(r@).contains(t) <==> tag_in(set.docs@, t),
{
    let mut out: Vec<String> = Vec::new();
    let mut i: usize = 0;
    while i < set.docs.len()
        invariant
            i <= set.docs@.len(),
            strictly_ascending(views(out@)),
            forall|t: Seq<char>| #[trigger]
                views(out@).contains(t) <==> tag_in(set.docs@.take(i as int), t),
        decreases set.docs.len() - i,
    {
        let ghost before = set.docs@.take(i as int);
        let ghost now = set.docs@.take(i + 1);
        match &set.docs[i].frontmatter.tags {
            None => {},
            Some(v) => {
                insert_tags(&mut out, v);
            },
        }
        assert forall|t: Seq<char>| #[trigger]
            views(out@).contains(t) <==> tag_in(now, t) by {
            if tagged(now[i as int].frontmatter.tags, t) {
                assert(tag_in(now, t));
            }
            if tag_in(now, t) {
                let k = choose|k: int| 0 <= k < now.len() && tagged(#[trigger] now[k].frontmatter.tags, t);
                if k < i {
                    assert(before[k] == now[k]);
                }
            }
            if tag_in(before, t) {
                let k = choose|k: int| 0 <= k < before.len() && tagged(#[trigger] before[k].frontmatter.tags, t);
                assert(before[k] == now[k]);
            }
        }
        i = i + 1;
    }
    assert(set.docs@.take(i as int) =~= set.docs@);
    out
}

/// Two answers that both meet `query`'s contract for one snapshot and one
/// pair of filters are the same sequence: repeated queries agree, ties in
/// date included.
pub proof fn lemma_query_deterministic(
    set: DocumentSet,
    q: Option<&str>,
    tag: Option<&str>,
    r1: Seq<Post>,
    r2: Seq<Post>,
)
    requires
        set.wf(),
        r1.to_multiset() == set.docs@.filter(
            |p: Post| selected(p, opt_chars(q), opt_chars(tag)),
        ).to_multiset(),
        r2.to_multiset() == set.docs@.filter(
            |p: Post| selected(p, opt_chars(q), opt_chars(tag)),
        ).to_multiset(),
        in_listing_order(r1),
        in_listing_order(r2),
        slugs_distinct(r1),
    ensures
        r1 == r2,
{
    lemma_listing_order_unique(r1, r2);
}

} // verus!
