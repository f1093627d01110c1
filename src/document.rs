//! Parsed documents and the immutable keyed set that holds them.
use vstd::prelude::*;

verus! {

/// The metadata block of a source file.
#[derive(Clone, Debug)]
pub struct FrontMatter {
    pub title: String,
    /// Sortable date string; lexical order follows chronology.
    pub date: String,
    /// `None` when the metadata names no tags at all.
    pub tags: Option<Vec<String>>,
}

/// One parsed source file.
#[derive(Clone, Debug)]
pub struct Post {
    /// Identifier derived from the file name; unique within a `DocumentSet`.
    pub slug: String,
    pub frontmatter: FrontMatter,
    /// The trimmed markup body.
    pub content: String,
    /// The body rendered to HTML.
    pub html: String,
}

/// The documents of `s` keyed by slug; a later document replaces an earlier one.
pub open spec fn map_of(s: Seq<Post>) -> Map<Seq<char>, Post>
    decreases s.len(),
{
    if s.len() == 0 {
        Map::empty()
    } else {
        map_of(s.drop_last()).insert(s.last().slug@, s.last())
    }
}

/// The documents that were parsed, in order, skipping the failures.
pub open spec fn present(s: Seq<Option<Post>>) -> Seq<Post>
    decreases s.len(),
{
    if s.len() == 0 {
        Seq::empty()
    } else {
        match s.last() {
            Some(p) => present(s.drop_last()).push(p),
            None => present(s.drop_last()),
        }
    }
}

/// No two documents of `s` share a slug.
pub open spec fn slugs_distinct(s: Seq<Post>) -> bool {
    forall|i: int, j: int| 0 <= i < j < s.len() ==> s[i].slug@ != s[j].slug@
}

/// A key of `map_of(s)` is exactly the slug of some document of `s`.
pub proof fn lemma_map_of_keys(s: Seq<Post>, k: Seq<char>)
    ensures
        map_of(s).contains_key(k) <==> exists|i: int| 0 <= i < s.len() && s[i].slug@ == k,
    decreases s.len(),
{
    if s.len() > 0 {
        lemma_map_of_keys(s.drop_last(), k);
        if map_of(s).contains_key(k) && k != s.last().slug@ {
            let i = choose|i: int| 0 <= i < s.len() - 1 && s.drop_last()[i].slug@ == k;
            assert(s[i].slug@ == k);
        }
        if exists|i: int| 0 <= i < s.len() && s[i].slug@ == k {
            let i = choose|i: int| 0 <= i < s.len() && s[i].slug@ == k;
            if i < s.len() - 1 {
                assert(s.drop_last()[i].slug@ == k);
            }
        }
    }
}

/// With distinct slugs, each document is found under its own slug.
pub proof fn lemma_map_of_index(s: Seq<Post>, i: int)
    requires
        slugs_distinct(s),
        0 <= i < s.len(),
    ensures
        map_of(s).contains_key(s[i].slug@),
        map_of(s)[s[i].slug@] == s[i],
    decreases s.len(),
{
    if i < s.len() - 1 {
        lemma_map_of_index(s.drop_last(), i);
    }
}

/// With distinct slugs, the map holds one entry per document.
pub proof fn lemma_map_of_len(s: Seq<Post>)
    requires
        slugs_distinct(s),
    ensures
        map_of(s).dom().len() == s.len(),
        map_of(s).dom().finite(),
    decreases s.len(),
{
    if s.len() > 0 {
        lemma_map_of_len(s.drop_last());
        lemma_map_of_keys(s.drop_last(), s.last().slug@);
    }
}

proof fn lemma_map_of_update(s: Seq<Post>, k: int, p: Post)
    requires
        slugs_distinct(s),
        0 <= k < s.len(),
        s[k].slug@ == p.slug@,
    ensures
        map_of(s.update(k, p)) == map_of(s).insert(p.slug@, p),
    decreases s.len(),
{
    let t = s.update(k, p);
    if k == s.len() - 1 {
        assert(t.drop_last() =~= s.drop_last());
        lemma_map_of_keys(s.drop_last(), p.slug@);
        assert(map_of(t) =~= map_of(s).insert(p.slug@, p));
    } else {
        assert(t.drop_last() =~= s.drop_last().update(k, p));
        lemma_map_of_update(s.drop_last(), k, p);
        assert(map_of(t) =~= map_of(s).insert(p.slug@, p));
    }
}

proof fn lemma_present_skips(x: Seq<Option<Post>>, i: int)
    requires
        0 <= i < x.len(),
        x[i] is None,
    ensures
        present(x) == present(x.remove(i)),
    decreases x.len(),
{
    let y = x.remove(i);
    if i == x.len() - 1 {
        assert(y =~= x.drop_last());
    } else {
        assert(y.drop_last() =~= x.drop_last().remove(i));
        assert(y.last() == x.last());
        lemma_present_skips(x.drop_last(), i);
    }
}

/// A file that fails to parse does not abort a reload or disturb it: the set
/// built with its failure in place is the set built without that file.
pub proof fn lemma_failed_file_skipped(x: Seq<Option<Post>>, i: int)
    requires
        0 <= i < x.len(),
        x[i] is None,
    ensures
        map_of(present(x)) == map_of(present(x.remove(i))),
{
    lemma_present_skips(x, i);
}

/// The character sequences of an optional tag list.
pub open spec fn tag_views(t: Option<Vec<String>>) -> Option<Seq<Seq<char>>> {
    match t {
        Some(v) => Some(v@.map_values(|x: String| x@)),
        None => None,
    }
}

/// Two documents agree on slug, title, date, tags and rendered body.
pub open spec fn same_content(p: Post, q: Post) -> bool {
    &&& p.slug@ == q.slug@
    &&& p.frontmatter.title@ == q.frontmatter.title@
    &&& p.frontmatter.date@ == q.frontmatter.date@
    &&& tag_views(p.frontmatter.tags) == tag_views(q.frontmatter.tags)
    &&& p.html@ == q.html@
}

/// Two parse runs agree file by file: the same files fail, and the others
/// give documents of the same content.
pub open spec fn same_results(x: Seq<Option<Post>>, y: Seq<Option<Post>>) -> bool {
    &&& x.len() == y.len()
    &&& forall|i: int|
        0 <= i < x.len() ==> (#[trigger] x[i] is None <==> #[trigger] y[i] is None)
    &&& forall|i: int|
        0 <= i < x.len() && x[i] is Some ==> same_content(#[trigger] x[i]->0, y[i]->0)
}

/// Two maps have the same keys and documents of the same content under each.
pub open spec fn same_documents(a: Map<Seq<char>, Post>, b: Map<Seq<char>, Post>) -> bool {
    forall|k: Seq<char>|
        (#[trigger] a.contains_key(k) <==> b.contains_key(k)) && (a.contains_key(k)
            ==> same_content(a[k], b[k]))
}

proof fn lemma_map_of_same(s: Seq<Post>, t: Seq<Post>)
    requires
        s.len() == t.len(),
        forall|i: int| 0 <= i < s.len() ==> same_content(#[trigger] s[i], t[i]),
    ensures
        same_documents(map_of(s), map_of(t)),
    decreases s.len(),
{
    if s.len() > 0 {
        lemma_map_of_same(s.drop_last(), t.drop_last());
        assert(same_content(s[s.len() - 1], t[t.len() - 1]));
    }
}

proof fn lemma_present_same(x: Seq<Option<Post>>, y: Seq<Option<Post>>)
    requires
        same_results(x, y),
    ensures
        present(x).len() == present(y).len(),
        forall|i: int|
            0 <= i < present(x).len() ==> same_content(#[trigger] present(x)[i], present(y)[i]),
    decreases x.len(),
{
    if x.len() > 0 {
        let (x1, y1) = (x.drop_last(), y.drop_last());
        assert forall|i: int| 0 <= i < x1.len() implies (#[trigger] x1[i] is None
            <==> #[trigger] y1[i] is None) by {
            assert(x[i] is None <==> y[i] is None);
        }
        assert forall|i: int| 0 <= i < x1.len() && x1[i] is Some implies same_content(
            #[trigger] x1[i]->0,
            y1[i]->0,
        ) by {
            assert(x[i] is Some);
        }
        lemma_present_same(x1, y1);
        assert(x[x.len() - 1] is None <==> y[y.len() - 1] is None);
    }
}

/// Reloading an unchanged directory twice gives sets of the same content:
/// when two runs over the files agree file by file, the sets they build hold
/// the same slugs, with documents of the same content under each.
pub proof fn lemma_reload_idempotent(x: Seq<Option<Post>>, y: Seq<Option<Post>>)
    requires
        same_results(x, y),
    ensures
        same_documents(map_of(present(x)), map_of(present(y))),
{
    lemma_present_same(x, y);
    lemma_map_of_same(present(x), present(y));
}

/// One consistent point-in-time view of all documents, keyed by slug.
/// It is built whole and never changed afterwards.
pub struct DocumentSet {
    pub docs: Vec<Post>,
}

impl DocumentSet {
    pub open spec fn wf(&self) -> bool {
        slugs_distinct(self.docs@)
    }

    pub open spec fn view(&self) -> Map<Seq<char>, Post> {
        map_of(self.docs@)
    }

    /// The set with no documents.
    pub fn new() -> (r: DocumentSet)
        ensures
            r.wf(),
            r@ == Map::<Seq<char>, Post>::empty(),
            r.docs@.len() == 0,
    {
        DocumentSet { docs: Vec::new() }
    }

    /// Builds a set from parse results in ingestion order: failures are
    /// skipped, and of two documents with one slug the later one is kept.
    pub fn from_parsed(results: Vec<Option<Post>>) -> (r: DocumentSet)
        ensures
            r.wf(),
            r@ == map_of(present(results@)),
    {
        let ghost orig = results@;
        let mut rest = results;
        let mut docs: Vec<Post> = Vec::new();
        let mut i: usize = 0;
        let n: usize = rest.len();
        while rest.len() > 0
            invariant
                orig.len() == n,
                rest@ == orig.subrange(i as int, orig.len() as int),
                i <= orig.len(),
                slugs_distinct(docs@),
                map_of(docs@) == map_of(present(orig.take(i as int))),
            decreases rest.len(),
        {
            let item = rest.remove(0);
            proof {
                assert(orig.take(i + 1).drop_last() =~= orig.take(i as int));
                assert(orig.take(i + 1).last() == item);
            }
            match item {
                Some(p) => {
                    proof {
                        let before = present(orig.take(i as int));
                        assert(present(orig.take(i + 1)) == before.push(p));
                        assert(before.push(p).drop_last() =~= before);
                    }
                    insert_last_wins(&mut docs, p);
                },
                None => {
                    assert(present(orig.take(i + 1)) == present(orig.take(i as int)));
                },
            }
            i = i + 1;
        }
        assert(orig.take(i as int) =~= orig);
        DocumentSet { docs }
    }

    /// Number of documents.
    pub fn len(&self) -> (r: usize)
        requires
            self.wf(),
        ensures
            r == self@.dom().len(),
    {
        proof {
            lemma_map_of_len(self.docs@);
        }
        self.docs.len()
    }

    /// Looks a document up by its slug.
    pub fn get(&self, slug: &String) -> (r: Option<&Post>)
        requires
            self.wf(),
        ensures
            r is Some <==> self@.contains_key(slug@),
            r is Some ==> *r->0 == self@[slug@],
    {
        let mut i: usize = 0;
        while i < self.docs.len()
            invariant
                i <= self.docs@.len(),
                self.wf(),
                forall|k: int| 0 <= k < i ==> self.docs@[k].slug@ != slug@,
            decreases self.docs.len() - i,
        {
            if self.docs[i].slug == *slug {
                proof {
                    lemma_map_of_index(self.docs@, i as int);
                }
                return Some(&self.docs[i]);
            }
            i = i + 1;
        }
        proof {
            lemma_map_of_keys(self.docs@, slug@);
        }
        None
    }
}

fn insert_last_wins(docs: &mut Vec<Post>, p: Post)
    requires
        slugs_distinct(old(docs)@),
    ensures
        slugs_distinct(final(docs)@),
        map_of(final(docs)@) == map_of(old(docs)@).insert(p.slug@, p),
{
    let mut k: usize = 0;
    while k < docs.len()
        invariant
            k <= docs@.len(),
            docs@ == old(docs)@,
            slugs_distinct(docs@),
            forall|j: int| 0 <= j < k ==> docs@[j].slug@ != p.slug@,
        decreases docs.len() - k,
    {
        if docs[k].slug == p.slug {
            proof {
                lemma_map_of_update(docs@, k as int, p);
            }
            docs.set(k, p);
            return;
        }
        k = k + 1;
    }
    assert(docs@.push(p).drop_last() =~= docs@);
    docs.push(p);
}

} // verus!
