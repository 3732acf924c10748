use artemis::git::merge_decision;
use artemis::git::PullAction;
use artemis::post::ContextState;
use artemis::post::Metadata;
use artemis::post::PostList;
use artemis::update::apply_sync;
use artemis::wiki::WikiPost;

fn store() -> ContextState {
    ContextState {
        repos: vec!["/srv/blog".to_string(), "/srv/wiki".to_string()],
        posts: vec![PostList {
            metadata: Metadata {
                date: "M01-01-2020".to_string(),
                author: "i4".to_string(),
                title: "old post".to_string(),
            },
            content: "old".to_string(),
        }],
        wiki: vec![WikiPost {
            location: "old.md".to_string(),
            metadata: Metadata {
                date: "M001-00-0000".to_string(),
                author: "i4".to_string(),
                title: "unknown".to_string(),
            },
            content: "old wiki".to_string(),
        }],
        secret: "shared".to_string(),
    }
}

#[test]
fn failed_blog_pull_keeps_posts_and_replaces_wiki() {
    let mut ctx = store();
    let new_wiki = vec![(
        "fresh.md".to_string(),
        "---\ntitle: Fresh\n---new wiki".to_string(),
    )];
    apply_sync(&mut ctx, None, Some(new_wiki));
    assert_eq!(ctx.posts.len(), 1);
    assert_eq!(ctx.posts[0].metadata.title, "old post");
    assert_eq!(ctx.wiki.len(), 1);
    assert_eq!(ctx.wiki[0].location, "fresh.md");
    assert_eq!(ctx.wiki[0].metadata.title, "Fresh");
    assert_eq!(ctx.wiki[0].content, "new wiki");
    assert_eq!(ctx.secret, "shared");
    assert_eq!(ctx.repos, vec!["/srv/blog".to_string(), "/srv/wiki".to_string()]);
}

#[test]
fn failed_wiki_pull_keeps_wiki_and_replaces_posts() {
    let mut ctx = store();
    let new_posts = vec!["---\ntitle: New\ndate: M02-02-2024\n---fresh".to_string()];
    apply_sync(&mut ctx, Some(new_posts), None);
    assert_eq!(ctx.posts.len(), 1);
    assert_eq!(ctx.posts[0].metadata.title, "New");
    assert_eq!(ctx.wiki.len(), 1);
    assert_eq!(ctx.wiki[0].location, "old.md");
}

#[test]
fn both_pulls_failing_change_nothing() {
    let mut ctx = store();
    apply_sync(&mut ctx, None, None);
    assert_eq!(ctx.posts[0].metadata.title, "old post");
    assert_eq!(ctx.wiki[0].location, "old.md");
}

#[test]
fn successful_sync_replaces_both_fields_fully() {
    let mut ctx = store();
    let new_posts = vec![
        "---\ntitle: p1\ndate: M01-01-2024\n---one".to_string(),
        "---\ntitle: p2\ndate: M02-01-2024\n---two".to_string(),
    ];
    let new_wiki = vec![
        ("x.md".to_string(), "x".to_string()),
        ("y/z.md".to_string(), "z".to_string()),
    ];
    apply_sync(&mut ctx, Some(new_posts), Some(new_wiki));
    assert_eq!(ctx.posts.len(), 2);
    assert_eq!(ctx.posts[0].metadata.title, "p2");
    assert_eq!(ctx.posts[1].metadata.title, "p1");
    assert_eq!(ctx.wiki.len(), 2);
    assert_eq!(ctx.wiki[0].location, "x.md");
    assert_eq!(ctx.wiki[1].location, "y/z.md");
}

#[test]
fn pull_is_fast_forward_only() {
    assert_eq!(merge_decision(true, false), PullAction::AlreadyUpToDate);
    assert_eq!(merge_decision(true, true), PullAction::AlreadyUpToDate);
    assert_eq!(merge_decision(false, true), PullAction::FastForward);
    assert_eq!(merge_decision(false, false), PullAction::Reject);
}
