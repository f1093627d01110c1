//! Turning one source file into a `Post`: the file-name rule, the `---`
//! framing of the metadata block, the required fields, and rendering.
use vstd::prelude::*;
use crate::document::{FrontMatter, Post};
use crate::text::{chars_of, occurs_at, trim_text, trimmed};

verus! {

/// The metadata delimiter.
pub open spec fn delim() -> Seq<char> {
    seq!['-', '-', '-']
}

/// `i` is the first position at or after `from` where the delimiter starts.
pub open spec fn first_delim_from(s: Seq<char>, from: int, i: int) -> bool {
    &&& from <= i
    &&& occurs_at(s, delim(), i)
    &&& forall|k: int| from <= k < i ==> !occurs_at(s, delim(), k)
}

/// The file carries a metadata block opened at `i` and closed at `j`.
pub open spec fn framed_at(s: Seq<char>, i: int, j: int) -> bool {
    first_delim_from(s, 0, i) && first_delim_from(s, i + 3, j)
}

/// The metadata text and the trimmed body of a source file.
#[derive(Clone, Debug)]
pub struct SourceParts {
    pub meta: String,
    pub body: String,
}

/// What pulldown-cmark renders from a markdown text: it depends on the text alone.
pub uninterp spec fn markdown_html(s: Seq<char>) -> Seq<char>;

/// Relies on `pulldown_cmark::html::push_html` over `pulldown_cmark::Parser::new`:
/// the HTML rendering of the markdown text, appended to an empty string.
#[verifier::external_body]
fn render_markdown(body: &str) -> (r: String)
    ensures
        r@ == markdown_html(body@),
{
    let mut out = String::new();
    pulldown_cmark::html::push_html(&mut out, pulldown_cmark::Parser::new(body));
    out
}

fn find_delim(c: &Vec<char>, from: usize) -> (r: Option<usize>)
    ensures
        r matches Some(i) ==> first_delim_from(c@, from as int, i as int),
        r is None ==> forall|k: int| from <= k ==> !occurs_at(c@, delim(), k),
{
    let mut i: usize = from;
    while i < c.len() && c.len() - i >= 3
        invariant
            from <= i,
            forall|k: int| from <= k < i ==> !occurs_at(c@, delim(), k),
        decreases c.len() - i,
    {
        if c[i] == '-' && c[i + 1] == '-' && c[i + 2] == '-' {
            assert(c@.subrange(i as int, i + 3) =~= delim());
            return Some(i);
        }
        assert(c@.subrange(i as int, i + 3)[0] == c@[i as int]);
        assert(c@.subrange(i as int, i + 3)[1] == c@[i + 1]);
        assert(c@.subrange(i as int, i + 3)[2] == c@[i + 2]);
        i = i + 1;
    }
    None
}

/// Splits a source file on its first two `---` delimiters: what precedes the
/// first is ignored, what lies between them is the metadata text, and the
/// rest, trimmed, is the body. `None` when there are fewer than two.
pub fn split_source(raw: &str) -> (r: Option<SourceParts>)
    ensures
        r is None <==> !exists|i: int, j: int| framed_at(raw@, i, j),
        r matches Some(p) ==> exists|i: int, j: int|
            framed_at(raw@, i, j) && p.meta@ == raw@.subrange(i + 3, j) && p.body@ == trimmed(
                raw@.subrange(j + 3, raw@.len() as int),
            ),
{
    let c = chars_of(raw);
    let n: usize = c.len();
    match find_delim(&c, 0) {
        None => None,
        Some(i) => match find_delim(&c, i + 3) {
            None => {
                assert forall|a: int, b: int| !framed_at(raw@, a, b) by {
                    if framed_at(raw@, a, b) {
                        assert(a == i as int);
                    }
                }
                None
            },
            Some(j) => {
                let meta = String::from_str(raw.substring_char(i + 3, j));
                let rest = raw.substring_char(j + 3, n);
                let body = String::from_str(trim_text(rest));
                assert(framed_at(raw@, i as int, j as int));
                Some(SourceParts { meta, body })
            },
        },
    }
}

/// `name` is a markdown source file name: a non-empty stem and the `.md` extension.
pub open spec fn is_source_name(name: Seq<char>) -> bool {
    name.len() > 3 && name.subrange(name.len() - 3, name.len() as int) == seq!['.', 'm', 'd']
}

/// The slug of a file name: its stem when it names a markdown source file.
pub fn post_slug(file_name: &str) -> (r: Option<String>)
    ensures
        r is Some <==> is_source_name(file_name@),
        r matches Some(s) ==> s@ == file_name@.subrange(0, file_name@.len() - 3),
{
    let n: usize = file_name.unicode_len();
    if n <= 3 {
        return None;
    }
    let tail = file_name.substring_char(n - 3, n);
    let t = chars_of(tail);
    if t[0] == '.' && t[1] == 'm' && t[2] == 'd' {
        assert(t@ =~= seq!['.', 'm', 'd']);
        Some(String::from_str(file_name.substring_char(0, n - 3)))
    } else {
        assert(t@[0] == tail@[0] && t@[1] == tail@[1] && t@[2] == tail@[2]);
        None
    }
}

/// Checks the decoded metadata: `title` and `date` are required, `tags` optional.
pub fn front_matter(title: Option<String>, date: Option<String>, tags: Option<Vec<String>>) -> (r:
    Option<FrontMatter>)
    ensures
        r is Some <==> (title is Some && date is Some),
        r matches Some(f) ==> f.title == title->0 && f.date == date->0 && f.tags == tags,
{
    match (title, date) {
        (Some(title), Some(date)) => Some(FrontMatter { title, date, tags }),
        _ => None,
    }
}

/// Builds the document for a slug, its metadata and its trimmed body,
/// rendering the body to HTML.
pub fn assemble_post(slug: String, frontmatter: FrontMatter, body: String) -> (r: Post)
    ensures
        r.slug == slug,
        r.frontmatter == frontmatter,
        r.content == body,
        r.html@ == markdown_html(body@),
{
    let html = render_markdown(body.as_str());
    Post { slug, frontmatter, content: body, html }
}

} // verus!
