//! Blog posts: front-matter metadata, the Markdown body, and the
//! date-descending order of the served post list.
//!
//! A post file is split on the `---` delimiter; the first YAML document at
//! the top (the front matter) supplies the metadata, every field falling
//! back to its default when missing or malformed, and everything after the
//! second delimiter is the body.
use crate::date::date_le;
use crate::date::date_of;
use crate::date::key_le;
use crate::text::concat_from;
use crate::text::concat_from_exec;
use crate::text::spec_split;
use crate::text::split_str;
use crate::wiki::WikiPost;
use vstd::prelude::*;
use vstd::seq_lib::lemma_multiset_commutative;
use vstd::string::*;

verus! {

/// Per-document front matter. Every loaded document carries a complete
/// record: missing or malformed fields are defaulted, never errors.
#[derive(Clone, Debug, PartialEq, Eq)]
pub struct Metadata {
    pub date: String,
    pub author: String,
    pub title: String,
}

/// One blog entry: front matter and body.
#[derive(Clone, Debug, PartialEq, Eq)]
pub struct PostList {
    pub metadata: Metadata,
    pub content: String,
}

/// The shared snapshot served to every request: the sorted post list, the
/// wiki pages, the two repository paths (blog first, wiki second) and the
/// webhook secret.
pub struct ContextState {
    pub repos: Vec<String>,
    pub posts: Vec<PostList>,
    pub wiki: Vec<WikiPost>,
    pub secret: String,
}

impl ContextState {
    /// The store's invariant: the served post list is always in the served
    /// order, most recent first. Established by the initial load and kept
    /// by every sync.
    pub open spec fn wf(self) -> bool {
        sorted_desc(self.posts@)
    }
}

/// Mathematical image of a `Metadata` record.
pub struct MetaV {
    pub date: Seq<char>,
    pub author: Seq<char>,
    pub title: Seq<char>,
}

/// Mathematical image of a post.
pub struct PostV {
    pub meta: MetaV,
    pub content: Seq<char>,
}

pub open spec fn meta_v(m: Metadata) -> MetaV {
    MetaV { date: m.date@, author: m.author@, title: m.title@ }
}

pub open spec fn post_v(p: PostList) -> PostV {
    PostV { meta: meta_v(p.metadata), content: p.content@ }
}

/// The string value of the field named `key` in the first YAML document
/// `doc`, when that document is a mapping holding a string there.
pub uninterp spec fn yaml_str_field_of(doc: Seq<char>, key: Seq<char>) -> Option<Seq<char>>;

/// Relies on serde_yaml: `from_str::<Value>` parses a YAML document, and
/// `Value::get` with `Value::as_str` select a mapping entry and read it when
/// it is a string. The outcome is a function of the document text and the
/// key alone.
#[verifier::external_body]
fn yaml_str_field(doc: &str, key: &str) -> (r: Option<String>)
    ensures
        match r {
            Some(s) => yaml_str_field_of(doc@, key@) == Some(s@),
            None => yaml_str_field_of(doc@, key@) is None,
        },
{
    match serde_yaml::from_str::<serde_yaml::Value>(doc) {
        Ok(v) => match v.get(key) {
            Some(f) => f.as_str().map(str::to_owned),
            None => None,
        },
        Err(_) => None,
    }
}

pub open spec fn default_date_spec() -> Seq<char> {
    "M001-00-0000"@
}

pub open spec fn default_author_spec() -> Seq<char> {
    "i4"@
}

pub open spec fn default_title_spec() -> Seq<char> {
    "unknown"@
}

/// The date a document reports when its front matter has none.
pub fn default_date() -> (r: String)
    ensures
        r@ == default_date_spec(),
{
    "M001-00-0000".to_owned()
}

/// The author a document reports when its front matter has none.
pub fn default_author() -> (r: String)
    ensures
        r@ == default_author_spec(),
{
    "i4".to_owned()
}

/// The title a document reports when its front matter has none.
pub fn default_title() -> (r: String)
    ensures
        r@ == default_title_spec(),
{
    "unknown".to_owned()
}

/// The front-matter delimiter.
pub open spec fn fm_delim() -> Seq<char> {
    seq!['-', '-', '-']
}

/// The first YAML document of a file: the text before the first `---` when
/// there is any, otherwise the block between the first two delimiters.
pub open spec fn front_block_of(t: Seq<char>) -> Seq<char> {
    let segs = spec_split(t, fm_delim());
    if segs[0].len() > 0 {
        segs[0]
    } else if segs.len() >= 2 {
        segs[1]
    } else {
        Seq::empty()
    }
}

/// The metadata carried by a front-matter block: each field read from the
/// block, defaulted when absent.
pub open spec fn meta_of_front(b: Seq<char>) -> MetaV {
    MetaV {
        date: match yaml_str_field_of(b, "date"@) {
            Some(d) => d,
            None => default_date_spec(),
        },
        author: match yaml_str_field_of(b, "author"@) {
            Some(a) => a,
            None => default_author_spec(),
        },
        title: match yaml_str_field_of(b, "title"@) {
            Some(t) => t,
            None => default_title_spec(),
        },
    }
}

pub open spec fn meta_of_text(t: Seq<char>) -> MetaV {
    meta_of_front(front_block_of(t))
}

/// The body of a file: everything after the second `---` delimiter. A file
/// with fewer than two delimiters has an empty body.
pub open spec fn content_of(t: Seq<char>) -> Seq<char> {
    concat_from(spec_split(t, fm_delim()), 2)
}

pub open spec fn post_of_text(t: Seq<char>) -> PostV {
    PostV { meta: meta_of_text(t), content: content_of(t) }
}

impl Metadata {
    /// An equal copy, field by field.
    pub fn duplicate(&self) -> (r: Metadata)
        ensures
            r == *self,
    {
        Metadata {
            date: self.date.clone(),
            author: self.author.clone(),
            title: self.title.clone(),
        }
    }
}

impl PostList {
    /// An equal copy, field by field.
    pub fn duplicate(&self) -> (r: PostList)
        ensures
            r == *self,
    {
        PostList { metadata: self.metadata.duplicate(), content: self.content.clone() }
    }
}

/// Read the front-matter block of a file into a complete metadata record.
pub fn parse_metadata(front: &str) -> (m: Metadata)
    ensures
        meta_v(m) == meta_of_front(front@),
{
    let date = match yaml_str_field(front, "date") {
        Some(d) => d,
        None => default_date(),
    };
    let author = match yaml_str_field(front, "author") {
        Some(a) => a,
        None => default_author(),
    };
    let title = match yaml_str_field(front, "title") {
        Some(t) => t,
        None => default_title(),
    };
    Metadata { date, author, title }
}

/// Parse one post file: front matter into metadata, the text after the
/// second delimiter into the body.
pub fn parse_post(text: &str) -> (p: PostList)
    ensures
        post_v(p) == post_of_text(text@),
{
    proof {
        reveal_strlit("---");
        assert("---"@ =~= fm_delim());
    }
    let segs = split_str(text, "---");
    let front: String = if segs[0].as_str().unicode_len() > 0 {
        segs[0].clone()
    } else if segs.len() >= 2 {
        segs[1].clone()
    } else {
        String::new()
    };
    let metadata = parse_metadata(front.as_str());
    let content = concat_from_exec(&segs, 2);
    PostList { metadata, content }
}

/// The sort key of a post: its parsed date.
pub open spec fn post_key(p: PostList) -> Option<(int, int, int)> {
    date_of(p.metadata.date@)
}

/// The served order: non-increasing by date, most recent first.
pub open spec fn sorted_desc(s: Seq<PostList>) -> bool {
    forall|i: int, j: int| 0 <= i < j < s.len() ==> key_le(post_key(s[j]), post_key(s[i]))
}

/// Whether post `a` ranks at or below post `b` by date.
pub fn post_le(a: &PostList, b: &PostList) -> (r: bool)
    ensures
        r == key_le(post_key(*a), post_key(*b)),
{
    date_le(a.metadata.date.as_str(), b.metadata.date.as_str())
}

pub open spec fn post_views(s: Seq<PostList>) -> Seq<PostV> {
    s.map_values(|p: PostList| post_v(p))
}

pub open spec fn posts_of_texts(ts: Seq<String>) -> Seq<PostV> {
    ts.map_values(|t: String| post_of_text(t@))
}

proof fn lemma_insert_multiset<A>(s: Seq<A>, j: int, x: A)
    requires
        0 <= j <= s.len(),
    ensures
        s.insert(j, x).to_multiset() == s.to_multiset().insert(x),
{
    broadcast use vstd::seq_lib::group_to_multiset_ensures;

    let a = s.take(j);
    let b = s.skip(j);
    assert(s.insert(j, x) =~= a.push(x) + b);
    assert(s =~= a + b);
    lemma_multiset_commutative(a.push(x), b);
    lemma_multiset_commutative(a, b);
    assert(s.insert(j, x).to_multiset() =~= s.to_multiset().insert(x));
}

/// Sort a post list into the served order: non-increasing by date. The
/// result is a permutation of the input, and a list already in order is
/// returned unchanged, so re-sorting a loaded list never reorders it.
pub fn sort_posts(posts: &mut Vec<PostList>)
    ensures
        sorted_desc(final(posts)@),
        final(posts)@.len() == old(posts)@.len(),
        final(posts)@.to_multiset() == old(posts)@.to_multiset(),
        post_views(final(posts)@).to_multiset() == post_views(old(posts)@).to_multiset(),
        sorted_desc(old(posts)@) ==> final(posts)@ == old(posts)@,
{
    let ghost orig = posts@;
    let mut out: Vec<PostList> = Vec::new();
    let mut i: usize = 0;
    proof {
        assert(orig.take(0) =~= Seq::<PostList>::empty());
        assert(post_views(out@) =~= post_views(orig.take(0)));
    }
    while i < posts.len()
        invariant
            i <= posts@.len(),
            posts@ == orig,
            out@.len() == i,
            sorted_desc(out@),
            out@.to_multiset() == orig.take(i as int).to_multiset(),
            post_views(out@).to_multiset() == post_views(orig.take(i as int)).to_multiset(),
            sorted_desc(orig) ==> out@ == orig.take(i as int),
        decreases posts@.len() - i,
    {
        let p = posts[i].duplicate();
        let mut j: usize = 0;
        while j < out.len() && post_le(&p, &out[j])
            invariant
                j <= out@.len(),
                forall|k: int| 0 <= k < j ==> key_le(post_key(p), post_key(out@[k])),
            decreases out@.len() - j,
        {
            j += 1;
        }
        let ghost prev = out@;
        proof {
            lemma_insert_multiset(prev, j as int, p);
            lemma_insert_multiset(post_views(prev), j as int, post_v(p));
            assert(post_views(prev.insert(j as int, p)) =~= post_views(prev).insert(
                j as int,
                post_v(p),
            ));
            assert(orig.take(i + 1).drop_last() =~= orig.take(i as int));
            assert(orig.take(i + 1) =~= orig.take(i as int).push(orig[i as int]));
            assert(post_views(orig.take(i + 1)) =~= post_views(orig.take(i as int)).push(
                post_v(orig[i as int]),
            ));
            broadcast use vstd::seq_lib::group_to_multiset_ensures;

        }
        out.insert(j, p);
        proof {
            assert(forall|k: int| 0 <= k < j ==> out@[k] == prev[k]);
            assert(out@[j as int] == p);
            assert(forall|k: int| j < k < out@.len() ==> out@[k] == prev[k - 1]);
            assert forall|k: int| j <= k < prev.len() implies key_le(
                post_key(prev[k]),
                post_key(p),
            ) by {
                assert(!key_le(post_key(p), post_key(prev[j as int])));
                if k > j {
                    assert(key_le(post_key(prev[k]), post_key(prev[j as int])));
                }
            }
            assert forall|a: int, b: int|
                0 <= a < b < out@.len() implies key_le(post_key(out@[b]), post_key(out@[a])) by {
                if b < j {
                } else if b == j {
                    assert(key_le(post_key(p), post_key(prev[a])));
                } else if a == j {
                    assert(key_le(post_key(prev[b - 1]), post_key(p)));
                } else if a < j {
                    assert(key_le(post_key(prev[b - 1]), post_key(prev[a])));
                }
            }
            if sorted_desc(orig) {
                assert(j == prev.len());
                assert(out@ =~= orig.take(i + 1));
            }
        }
        i += 1;
    }
    proof {
        assert(orig.take(orig.len() as int) =~= orig);
    }
    *posts = out;
}

/// Load the blog: parse every file text into a post, then sort the list
/// into the served order. Per-file parse failures degrade to defaulted
/// records, so the load as a whole never fails.
pub fn load(texts: &Vec<String>) -> (r: Result<Vec<PostList>, String>)
    ensures
        match r {
            Ok(v) => sorted_desc(v@) && v@.len() == texts@.len() && post_views(v@).to_multiset()
                == posts_of_texts(texts@).to_multiset(),
            Err(_) => false,
        },
{
    let mut mid: Vec<PostList> = Vec::new();
    let mut i: usize = 0;
    proof {
        assert(texts@.take(0) =~= Seq::<String>::empty());
        assert(post_views(mid@) =~= posts_of_texts(texts@.take(0)));
    }
    while i < texts.len()
        invariant
            i <= texts@.len(),
            mid@.len() == i,
            post_views(mid@) == posts_of_texts(texts@.take(i as int)),
        decreases texts@.len() - i,
    {
        let p = parse_post(texts[i].as_str());
        let ghost prev = mid@;
        mid.push(p);
        proof {
            assert(texts@.take(i + 1).drop_last() =~= texts@.take(i as int));
            assert(post_views(prev.push(p)) =~= post_views(prev).push(post_v(p)));
            assert(posts_of_texts(texts@.take(i + 1)) =~= posts_of_texts(texts@.take(i as int)).push(
                post_of_text(texts@[i as int]@),
            ));
        }
        i += 1;
    }
    proof {
        assert(texts@.take(texts@.len() as int) =~= texts@);
    }
    sort_posts(&mut mid);
    Ok(mid)
}

} // verus!
