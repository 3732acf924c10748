//! Blog read views: the index and a single post looked up by title.
use crate::post::meta_v;
use crate::post::Metadata;
use crate::post::PostList;
use vstd::prelude::*;

verus! {

/// The blog index view: the served posts in order.
pub struct BlogIndex {
    pub posts: Vec<PostList>,
    pub site: String,
    pub title: Option<String>,
}

/// A single rendered post.
pub struct BlogPost {
    pub content: String,
    pub metadata: Metadata,
    pub site: String,
    pub title: Option<String>,
}

/// The blog index: the snapshot's post list as handed to the template.
pub fn blog(posts: Vec<PostList>, site: String, title: Option<String>) -> (r: BlogIndex)
    ensures
        r.posts == posts,
        r.site == site,
        r.title == title,
{
    BlogIndex { posts, site, title }
}

/// A post by exact title: the first post whose `metadata.title` equals the
/// request, or not-found when none matches.
pub fn blog_post(
    posts: &Vec<PostList>,
    title: &String,
    site: String,
    index_title: Option<String>,
) -> (r: Result<BlogPost, u16>)
    ensures
        match r {
            Ok(bp) => bp.site == site && bp.title == index_title && exists|i: int|
                0 <= i < posts@.len() && #[trigger] posts@[i].metadata.title@ == title@
                    && bp.content@ == posts@[i].content@ && meta_v(bp.metadata) == meta_v(
                    posts@[i].metadata,
                ) && (forall|j: int| 0 <= j < i ==> posts@[j].metadata.title@ != title@),
            Err(code) => code == 404 && forall|i: int|
                0 <= i < posts@.len() ==> posts@[i].metadata.title@ != title@,
        },
{
    let mut i: usize = 0;
    while i < posts.len()
        invariant
            i <= posts@.len(),
            forall|j: int| 0 <= j < i ==> posts@[j].metadata.title@ != title@,
        decreases posts@.len() - i,
    {
        if posts[i].metadata.title == *title {
            let p = posts[i].duplicate();
            let bp = BlogPost { content: p.content, metadata: p.metadata, site, title: index_title };
            proof {
                assert(posts@[i as int].metadata.title@ == title@);
            }
            return Ok(bp);
        }
        i += 1;
    }
    Err(404)
}

} // verus!
