//! Wiki pages: loading from file texts and resolving hierarchical paths
//! against the current snapshot.
use crate::post::content_of;
use crate::post::meta_of_text;
use crate::post::meta_v;
use crate::post::parse_metadata;
use crate::post::parse_post;
use crate::post::Metadata;
use crate::post::MetaV;
use crate::text::find_from;
use crate::text::lemma_lex_total;
use crate::text::lemma_lex_trans;
use crate::text::lemma_push_contains;
use crate::text::lemma_take_contains_step;
use crate::text::lex_le;
use crate::text::lex_lt;
use crate::text::match_at;
use crate::text::spec_find;
use crate::text::str_le;
use crate::text::views;
use vstd::prelude::*;
use vstd::string::*;

verus! {

/// One wiki page, addressed by its path under the wiki repository root.
#[derive(Clone, Debug, PartialEq, Eq)]
pub struct WikiPost {
    pub location: String,
    pub metadata: Metadata,
    pub content: String,
}

/// Mathematical image of a wiki page.
pub struct WikiV {
    pub location: Seq<char>,
    pub meta: MetaV,
    pub content: Seq<char>,
}

pub open spec fn wiki_v(w: WikiPost) -> WikiV {
    WikiV { location: w.location@, meta: meta_v(w.metadata), content: w.content@ }
}

/// The page a file at relative path `loc` with text `t` denotes.
pub open spec fn wiki_of_file(loc: Seq<char>, t: Seq<char>) -> WikiV {
    WikiV { location: loc, meta: meta_of_text(t), content: content_of(t) }
}

pub open spec fn wiki_views(s: Seq<WikiPost>) -> Seq<WikiV> {
    s.map_values(|w: WikiPost| wiki_v(w))
}

pub open spec fn wikis_of_files(fs: Seq<(String, String)>) -> Seq<WikiV> {
    fs.map_values(|f: (String, String)| wiki_of_file(f.0@, f.1@))
}

impl WikiPost {
    /// An equal copy, field by field.
    pub fn duplicate(&self) -> (r: WikiPost)
        ensures
            r == *self,
    {
        WikiPost {
            location: self.location.clone(),
            metadata: self.metadata.duplicate(),
            content: self.content.clone(),
        }
    }
}

/// Load the wiki: each file is given by its path relative to the wiki root
/// and its text, and parses exactly as a post file does; pages keep
/// traversal order. Per-file parse failures degrade to defaulted records,
/// so the load as a whole never fails.
pub fn load(files: &Vec<(String, String)>) -> (r: Option<Vec<WikiPost>>)
    ensures
        match r {
            Some(v) => v@.len() == files@.len() && forall|i: int|
                0 <= i < v@.len() ==> wiki_v(v@[i]) == wiki_of_file(
                    files@[i].0@,
                    files@[i].1@,
                ),
            None => false,
        },
{
    let mut out: Vec<WikiPost> = Vec::new();
    let mut i: usize = 0;
    while i < files.len()
        invariant
            i <= files@.len(),
            out@.len() == i,
            forall|k: int|
                0 <= k < i ==> wiki_v(out@[k]) == wiki_of_file(files@[k].0@, files@[k].1@),
        decreases files@.len() - i,
    {
        let p = parse_post(files[i].1.as_str());
        let w = WikiPost {
            location: files[i].0.clone(),
            metadata: p.metadata,
            content: p.content,
        };
        out.push(w);
        i += 1;
    }
    Some(out)
}

/// The view handed to the wiki template: the page at the requested path when
/// there is one, and the names of its immediate children, documents and
/// folders apart.
#[derive(Clone, Debug)]
pub struct WikiIndex {
    pub content: Option<WikiPost>,
    pub documents: Vec<String>,
    pub current: String,
    pub folders: Vec<String>,
    pub site: String,
    pub title: Option<String>,
}

/// `loc` lies at or under path `cur`, component-wise: the empty path is
/// above everything, and otherwise `cur` must be followed by a slash or end
/// the location.
pub open spec fn path_starts_with(loc: Seq<char>, cur: Seq<char>) -> bool {
    cur.len() == 0 || loc == cur || (loc.len() > cur.len() && loc.take(cur.len() as int) == cur
        && loc[cur.len() as int] == '/')
}

/// The immediate child segment of `loc` below `cur`: the text after the
/// prefix and its slash, up to the next slash.
pub open spec fn child_of(loc: Seq<char>, cur: Seq<char>) -> Seq<char> {
    let start: int = if cur.len() == 0 {
        0
    } else {
        cur.len() + 1int
    };
    let j = spec_find(loc, seq!['/'], start);
    if j < 0 {
        loc.skip(start)
    } else {
        loc.subrange(start, j)
    }
}

/// Page `w` contributes the non-empty child segment `x` below `cur`.
pub open spec fn contributes(w: WikiPost, cur: Seq<char>, x: Seq<char>) -> bool {
    path_starts_with(w.location@, cur) && w.location@ != cur && x == child_of(w.location@, cur)
        && x.len() > 0
}

/// `x` is an immediate child name below `cur` in the snapshot.
pub open spec fn is_child(snap: Seq<WikiPost>, cur: Seq<char>, x: Seq<char>) -> bool {
    exists|i: int| 0 <= i < snap.len() && #[trigger] contributes(snap[i], cur, x)
}

/// A document name: it ends in `.md`.
pub open spec fn is_md(s: Seq<char>) -> bool {
    s.len() >= 3 && s[s.len() - 3] == '.' && s[s.len() - 2] == 'm' && s[s.len() - 1] == 'd'
}

pub open spec fn strictly_sorted_lex(vs: Seq<Seq<char>>) -> bool {
    forall|i: int, j: int| 0 <= i < j < vs.len() ==> lex_lt(vs[i], vs[j])
}

proof fn lemma_is_child_step(snap: Seq<WikiPost>, cur: Seq<char>, i: int, x: Seq<char>)
    requires
        0 <= i < snap.len(),
    ensures
        is_child(snap.take(i + 1), cur, x) <==> (is_child(snap.take(i), cur, x) || contributes(
            snap[i],
            cur,
            x,
        )),
{
    if is_child(snap.take(i + 1), cur, x) {
        let k = choose|k: int| 0 <= k < i + 1 && #[trigger] contributes(snap.take(i + 1)[k], cur, x);
        if k < i {
            assert(contributes(snap.take(i)[k], cur, x));
        } else {
            assert(snap.take(i + 1)[i] == snap[i]);
        }
    }
    if is_child(snap.take(i), cur, x) {
        let k = choose|k: int| 0 <= k < i && #[trigger] contributes(snap.take(i)[k], cur, x);
        assert(contributes(snap.take(i + 1)[k], cur, x));
    }
    if contributes(snap[i], cur, x) {
        assert(contributes(snap.take(i + 1)[i], cur, x));
    }
}

/// Whether `loc` lies at or under path `cur`.
fn starts_with_path(loc: &String, cur: &String) -> (r: bool)
    ensures
        r == path_starts_with(loc@, cur@),
{
    let cur_len = cur.as_str().unicode_len();
    let loc_len = loc.as_str().unicode_len();
    if cur_len == 0 {
        return true;
    }
    if loc_len == cur_len {
        let eq = *loc == *cur;
        proof {
            if loc@ =~= cur@ {
                assert(loc@ == cur@);
            }
        }
        eq
    } else if loc_len > cur_len {
        if match_at(loc.as_str(), cur.as_str(), 0) {
            proof {
                assert(loc@.take(cur_len as int) =~= loc@.subrange(0, cur_len as int));
            }
            loc.as_str().get_char(cur_len) == '/'
        } else {
            proof {
                assert(loc@.take(cur_len as int) =~= loc@.subrange(0, cur_len as int));
            }
            false
        }
    } else {
        false
    }
}

/// The immediate child segment of `loc` below `cur`.
fn child_segment(loc: &String, cur: &String) -> (r: String)
    requires
        path_starts_with(loc@, cur@),
        loc@ != cur@,
    ensures
        r@ == child_of(loc@, cur@),
{
    let cur_len = cur.as_str().unicode_len();
    let loc_len = loc.as_str().unicode_len();
    let start: usize = if cur_len == 0 {
        0
    } else {
        cur_len + 1
    };
    proof {
        reveal_strlit("/");
        assert("/"@ =~= seq!['/']);
    }
    match find_from(loc.as_str(), "/", start) {
        Some(j) => {
            proof {
                crate::text::lemma_find_props(loc@, seq!['/'], start as int);
            }
            loc.as_str().substring_char(start, j).to_owned()
        },
        None => {
            let piece = loc.as_str().substring_char(start, loc_len).to_owned();
            proof {
                assert(piece@ =~= loc@.skip(start as int));
            }
            piece
        },
    }
}

/// A document name ends in `.md`.
fn ends_md(s: &String) -> (r: bool)
    ensures
        r == is_md(s@),
{
    let len = s.as_str().unicode_len();
    if len < 3 {
        return false;
    }
    s.as_str().get_char(len - 3) == '.' && s.as_str().get_char(len - 2) == 'm' && s.as_str()
        .get_char(len - 1) == 'd'
}

/// Insert a child name into the sorted, duplicate-free list of children.
fn insert_child(children: &mut Vec<String>, c: String)
    requires
        strictly_sorted_lex(views(old(children)@)),
    ensures
        strictly_sorted_lex(views(final(children)@)),
        forall|x: Seq<char>| #[trigger]
            views(final(children)@).contains(x) <==> (views(old(children)@).contains(x) || x
                == c@),
{
    let ghost prev = children@;
    let mut j: usize = 0;
    while j < children.len() && str_le(children[j].as_str(), c.as_str()) && !(children[j] == c)
        invariant
            j <= children@.len(),
            children@ == prev,
            forall|k: int| 0 <= k < j ==> lex_lt(views(children@)[k], c@),
        decreases children@.len() - j,
    {
        proof {
            assert(views(children@)[j as int] == children@[j as int]@);
        }
        j += 1;
    }
    if j < children.len() && children[j] == c {
        proof {
            assert(views(children@)[j as int] == c@);
            assert forall|x: Seq<char>| #[trigger]
                views(children@).contains(x) <==> (views(prev).contains(x) || x == c@) by {
                if x == c@ {
                    assert(views(children@)[j as int] == x);
                }
            }
        }
        return ;
    }
    proof {
        // everything at or after j is strictly above c
        assert forall|k: int| j <= k < prev.len() implies lex_lt(c@, views(prev)[k]) by {
            let prev_j = views(prev)[j as int];
            assert(prev_j == children@[j as int]@);
            assert(!lex_le(prev_j, c@));
            lemma_lex_total(prev_j, c@);
            if k > j {
                let prev_k = views(prev)[k];
                assert(lex_lt(prev_j, prev_k));
                lemma_lex_trans(c@, prev_j, prev_k);
                if c@ == prev_k {
                    assert(lex_le(prev_j, c@));
                    assert(false);
                }
            }
        }
    }
    children.insert(j, c);
    proof {
        assert(views(children@) =~= views(prev).insert(j as int, c@));
        assert(forall|k: int| 0 <= k < j ==> views(children@)[k] == views(prev)[k]);
        assert(views(children@)[j as int] == c@);
        assert(forall|k: int| j < k < views(children@).len() ==> views(children@)[k] == views(
            prev,
        )[k - 1]);
        assert forall|a: int, b: int|
            0 <= a < b < views(children@).len() implies lex_lt(
            views(children@)[a],
            views(children@)[b],
        ) by {
            if b < j {
            } else if b == j {
                assert(lex_lt(views(prev)[a], c@));
            } else if a == j {
                assert(lex_lt(c@, views(prev)[b - 1]));
            } else if a < j {
                if b - 1 == a {
                    assert(false);
                } else {
                    assert(lex_lt(views(prev)[a], views(prev)[b - 1]));
                }
            } else {
                assert(lex_lt(views(prev)[a - 1], views(prev)[b - 1]));
            }
        }
        assert forall|x: Seq<char>| #[trigger]
            views(children@).contains(x) <==> (views(prev).contains(x) || x == c@) by {
            if views(children@).contains(x) {
                let idx = views(children@).lemma_contains_to_index(x);
                if idx < j {
                    assert(views(prev)[idx] == x);
                } else if idx > j {
                    assert(views(prev)[idx - 1] == x);
                }
            }
            if views(prev).contains(x) {
                let idx = views(prev).lemma_contains_to_index(x);
                if idx < j {
                    assert(views(children@)[idx] == x);
                } else {
                    assert(views(children@)[idx + 1] == x);
                }
            }
            if x == c@ {
                assert(views(children@)[j as int] == x);
            }
        }
    }
}

/// The page whose location equals the requested path, the last such page
/// in the snapshot when several carry the same location.
fn find_exact(snapshot: &Vec<WikiPost>, current: &String) -> (r: Option<WikiPost>)
    ensures
        match r {
            Some(p) => p.location@ == current@ && exists|i: int|
                0 <= i < snapshot@.len() && #[trigger] snapshot@[i] == p && (forall|k: int|
                    i < k < snapshot@.len() ==> snapshot@[k].location@ != current@),
            None => forall|i: int| 0 <= i < snapshot@.len() ==> snapshot@[i].location@ != current@,
        },
{
    let mut content: Option<WikiPost> = None;
    let mut i: usize = 0;
    while i < snapshot.len()
        invariant
            i <= snapshot@.len(),
            match content {
                Some(p) => p.location@ == current@ && exists|k: int|
                    0 <= k < i && #[trigger] snapshot@[k] == p && (forall|k2: int|
                        k < k2 < i ==> snapshot@[k2].location@ != current@),
                None => forall|k: int| 0 <= k < i ==> snapshot@[k].location@ != current@,
            },
        decreases snapshot@.len() - i,
    {
        if snapshot[i].location == *current {
            let p = snapshot[i].duplicate();
            content = Some(p);
            proof {
                assert(snapshot@[i as int] == p);
            }
        } else {
            proof {
                let ghost cval = content;
                match cval {
                    Some(p) => {
                        let k = choose|k: int|
                            0 <= k < i && #[trigger] snapshot@[k] == p && (forall|k2: int|
                                k < k2 < i ==> snapshot@[k2].location@ != current@);
                        assert(snapshot@[k] == p);
                        assert(forall|k2: int|
                            k < k2 < i + 1 ==> snapshot@[k2].location@ != current@);
                    },
                    None => {},
                }
            }
        }
        i += 1;
    }
    content
}

/// Collect the immediate child names below `current`, sorted and without
/// duplicates.
fn collect_children(snapshot: &Vec<WikiPost>, current: &String) -> (r: Vec<String>)
    ensures
        strictly_sorted_lex(views(r@)),
        forall|x: Seq<char>| #[trigger] views(r@).contains(x) <==> is_child(snapshot@, current@, x),
{
    let mut children: Vec<String> = Vec::new();
    let mut i: usize = 0;
    proof {
        assert(snapshot@.take(0) =~= Seq::<WikiPost>::empty());
    }
    while i < snapshot.len()
        invariant
            i <= snapshot@.len(),
            strictly_sorted_lex(views(children@)),
            forall|x: Seq<char>| #[trigger]
                views(children@).contains(x) <==> is_child(snapshot@.take(i as int), current@, x),
        decreases snapshot@.len() - i,
    {
        let ghost prev = children@;
        let loc = &snapshot[i].location;
        let under = starts_with_path(loc, current);
        let equal = *loc == *current;
        let mut contributed = false;
        let ghost mut contribution = Seq::<char>::empty();
        if under && !equal {
            let c = child_segment(loc, current);
            if c.as_str().unicode_len() > 0 {
                proof {
                    contribution = c@;
                }
                insert_child(&mut children, c);
                contributed = true;
            }
        }
        proof {
            assert forall|x: Seq<char>| #[trigger]
                views(children@).contains(x) <==> is_child(
                snapshot@.take(i + 1),
                current@,
                x,
            ) by {
                lemma_is_child_step(snapshot@, current@, i as int, x);
                if contributed {
                    assert(contributes(snapshot@[i as int], current@, contribution));
                    assert(views(children@).contains(x) <==> (views(prev).contains(x) || x
                        == contribution));
                    if contributes(snapshot@[i as int], current@, x) {
                        assert(x == contribution);
                    }
                } else {
                    assert(children@ == prev);
                    if contributes(snapshot@[i as int], current@, x) {
                        assert(x == child_of(snapshot@[i as int].location@, current@) && x.len()
                            > 0);
                        assert(false);
                    }
                }
            }
        }
        i += 1;
    }
    proof {
        assert(snapshot@.take(snapshot@.len() as int) =~= snapshot@);
    }
    children
}

/// Split the sorted child names into documents (ending in `.md`) and
/// folders (the rest), each list keeping the sorted order.
fn partition_children(children: &Vec<String>) -> (r: (Vec<String>, Vec<String>))
    requires
        strictly_sorted_lex(views(children@)),
    ensures
        strictly_sorted_lex(views(r.0@)),
        strictly_sorted_lex(views(r.1@)),
        forall|x: Seq<char>| #[trigger]
            views(r.0@).contains(x) <==> (views(children@).contains(x) && is_md(x)),
        forall|x: Seq<char>| #[trigger]
            views(r.1@).contains(x) <==> (views(children@).contains(x) && !is_md(x)),
{
    let mut documents: Vec<String> = Vec::new();
    let mut folders: Vec<String> = Vec::new();
    let mut k: usize = 0;
    proof {
        assert(views(children@).take(0) =~= Seq::<Seq<char>>::empty());
    }
    while k < children.len()
        invariant
            k <= children@.len(),
            strictly_sorted_lex(views(children@)),
            strictly_sorted_lex(views(documents@)),
            strictly_sorted_lex(views(folders@)),
            forall|x: Seq<char>| #[trigger]
                views(documents@).contains(x) <==> (views(children@).take(k as int).contains(x)
                    && is_md(x)),
            forall|x: Seq<char>| #[trigger]
                views(folders@).contains(x) <==> (views(children@).take(k as int).contains(x)
                    && !is_md(x)),
        decreases children@.len() - k,
    {
        let c = children[k].clone();
        let ghost cv = c@;
        proof {
            assert(views(children@)[k as int] == cv);
        }
        let md = ends_md(&c);
        let ghost docs_prev = documents@;
        let ghost folds_prev = folders@;
        if md {
            documents.push(c);
        } else {
            folders.push(c);
        }
        proof {
            if md {
                assert(views(documents@) =~= views(docs_prev).push(cv));
            } else {
                assert(views(folders@) =~= views(folds_prev).push(cv));
            }
            let ghost pushed = if md {
                views(documents@)
            } else {
                views(folders@)
            };
            let ghost pushed_prev = if md {
                views(docs_prev)
            } else {
                views(folds_prev)
            };
            // the pushed name is above everything already in its list
            assert forall|a: int| 0 <= a < pushed_prev.len() implies lex_lt(pushed_prev[a], cv) by {
                assert(pushed_prev.contains(pushed_prev[a]));
                let tk = views(children@).take(k as int);
                assert(tk.contains(pushed_prev[a]));
                let idx = tk.lemma_contains_to_index(pushed_prev[a]);
                assert(views(children@)[idx] == pushed_prev[a]);
                assert(lex_lt(views(children@)[idx], views(children@)[k as int]));
            }
            assert forall|a: int, b: int|
                0 <= a < b < pushed.len() implies lex_lt(pushed[a], pushed[b]) by {
                if b < pushed_prev.len() {
                } else {
                    assert(pushed[b] == cv);
                    assert(pushed[a] == pushed_prev[a]);
                }
            }
            assert forall|x: Seq<char>| #[trigger]
                views(documents@).contains(x) <==> (views(children@).take(k + 1).contains(x)
                    && is_md(x)) by {
                lemma_take_contains_step(views(children@), k as int, x);
                if md {
                    lemma_push_contains(views(docs_prev), cv, x);
                } else {
                    assert(views(documents@) == views(docs_prev));
                }
            }
            assert forall|x: Seq<char>| #[trigger]
                views(folders@).contains(x) <==> (views(children@).take(k + 1).contains(x)
                    && !is_md(x)) by {
                lemma_take_contains_step(views(children@), k as int, x);
                if !md {
                    lemma_push_contains(views(folds_prev), cv, x);
                } else {
                    assert(views(folders@) == views(folds_prev));
                }
            }
        }
        k += 1;
    }
    proof {
        assert(views(children@).take(children@.len() as int) =~= views(children@));
    }
    (documents, folders)
}

/// Resolve a requested path against the wiki snapshot: the exact-match page
/// when there is one, and the immediate children of the path, documents and
/// folders apart, sorted and without duplicates. `None` exactly when the
/// path names neither a page nor a non-empty folder.
pub fn wiki_posts(
    snapshot: &Vec<WikiPost>,
    current: &String,
    site: &String,
    title: &Option<String>,
) -> (r: Option<WikiIndex>)
    ensures
        match r {
            Some(w) => {
                &&& w.current@ == current@
                &&& w.site@ == site@
                &&& w.title == *title
                &&& strictly_sorted_lex(views(w.documents@))
                &&& strictly_sorted_lex(views(w.folders@))
                &&& forall|c: Seq<char>| #[trigger]
                    views(w.documents@).contains(c) <==> (is_child(snapshot@, current@, c)
                        && is_md(c))
                &&& forall|c: Seq<char>| #[trigger]
                    views(w.folders@).contains(c) <==> (is_child(snapshot@, current@, c) && !is_md(
                        c,
                    ))
                &&& match w.content {
                    Some(p) => p.location@ == current@ && exists|i: int|
                        0 <= i < snapshot@.len() && #[trigger] snapshot@[i] == p && (forall|k: int|
                            i < k < snapshot@.len() ==> snapshot@[k].location@ != current@),
                    None => forall|i: int|
                        0 <= i < snapshot@.len() ==> snapshot@[i].location@ != current@,
                }
                &&& (w.content is Some || exists|c: Seq<char>|
                    is_child(snapshot@, current@, c))
            },
            None => {
                &&& forall|i: int|
                    0 <= i < snapshot@.len() ==> snapshot@[i].location@ != current@
                &&& forall|c: Seq<char>| !is_child(snapshot@, current@, c)
            },
        },
{
    let content = find_exact(snapshot, current);
    let children = collect_children(snapshot, current);
    if content.is_none() && children.len() == 0 {
        proof {
            assert forall|c: Seq<char>| !is_child(snapshot@, current@, c) by {
                if is_child(snapshot@, current@, c) {
                    assert(views(children@).contains(c));
                }
            }
        }
        return None;
    }
    proof {
        if children@.len() > 0 {
            assert(views(children@).contains(views(children@)[0]));
            assert(is_child(snapshot@, current@, views(children@)[0]));
        }
    }
    let (documents, folders) = partition_children(&children);
    let title_copy: Option<String> = match title {
        Some(t) => Some(t.clone()),
        None => None,
    };
    Some(
        WikiIndex {
            content,
            documents,
            current: current.clone(),
            folders,
            site: site.clone(),
            title: title_copy,
        },
    )
}

} // verus!
