use artemis::post::Metadata;
use artemis::wiki::load;
use artemis::wiki::wiki_posts;
use artemis::wiki::WikiPost;

fn page(location: &str) -> WikiPost {
    WikiPost {
        location: location.to_string(),
        metadata: Metadata {
            date: "M001-00-0000".to_string(),
            author: "i4".to_string(),
            title: "unknown".to_string(),
        },
        content: format!("content of {}", location),
    }
}

fn tree() -> Vec<WikiPost> {
    vec![page("a/b.md"), page("a/c.md"), page("a/sub/d.md")]
}

fn resolve(pages: &Vec<WikiPost>, path: &str) -> Option<artemis::wiki::WikiIndex> {
    wiki_posts(pages, &path.to_string(), &"site".to_string(), &None)
}

#[test]
fn folder_path_lists_documents_and_folders() {
    let view = resolve(&tree(), "a").unwrap();
    assert_eq!(view.documents, vec!["b.md".to_string(), "c.md".to_string()]);
    assert_eq!(view.folders, vec!["sub".to_string()]);
    assert!(view.content.is_none());
    assert_eq!(view.current, "a");
}

#[test]
fn exact_document_path_returns_the_page_alone() {
    let view = resolve(&tree(), "a/b.md").unwrap();
    let content = view.content.unwrap();
    assert_eq!(content.location, "a/b.md");
    assert_eq!(content.content, "content of a/b.md");
    assert!(view.documents.is_empty());
    assert!(view.folders.is_empty());
}

#[test]
fn unknown_path_is_not_found() {
    assert!(resolve(&tree(), "zzz").is_none());
    assert!(resolve(&tree(), "a/bb").is_none());
    assert!(resolve(&tree(), "a/b.md/x").is_none());
}

#[test]
fn sibling_prefix_is_not_a_folder_match() {
    let pages = vec![page("ab/c.md"), page("a/d.md")];
    let view = resolve(&pages, "a").unwrap();
    assert_eq!(view.documents, vec!["d.md".to_string()]);
    assert!(view.folders.is_empty());
}

#[test]
fn root_path_lists_top_level_children() {
    let view = resolve(&tree(), "").unwrap();
    assert!(view.documents.is_empty());
    assert_eq!(view.folders, vec!["a".to_string()]);
}

#[test]
fn duplicate_children_are_listed_once_and_sorted() {
    let pages = vec![
        page("a/z.md"),
        page("a/sub/one.md"),
        page("a/sub/two.md"),
        page("a/b.md"),
    ];
    let view = resolve(&pages, "a").unwrap();
    assert_eq!(view.documents, vec!["b.md".to_string(), "z.md".to_string()]);
    assert_eq!(view.folders, vec!["sub".to_string()]);
}

#[test]
fn nested_folder_resolves_its_own_children() {
    let view = resolve(&tree(), "a/sub").unwrap();
    assert_eq!(view.documents, vec!["d.md".to_string()]);
    assert!(view.folders.is_empty());
    assert!(view.content.is_none());
}

#[test]
fn loaded_wiki_keeps_locations_and_parses_files() {
    let files = vec![
        (
            "guide/intro.md".to_string(),
            "---\ntitle: Intro\ndate: M01-02-2024\n---hello".to_string(),
        ),
        ("notes.md".to_string(), "plain text".to_string()),
    ];
    let pages = load(&files).unwrap();
    assert_eq!(pages.len(), 2);
    assert_eq!(pages[0].location, "guide/intro.md");
    assert_eq!(pages[0].metadata.title, "Intro");
    assert_eq!(pages[0].content, "hello");
    assert_eq!(pages[1].location, "notes.md");
    assert_eq!(pages[1].metadata.title, "unknown");
    assert_eq!(pages[1].content, "");
}
