use artemis::blog::blog;
use artemis::blog::blog_post;
use artemis::date::parse_date;
use artemis::post::default_author;
use artemis::post::default_date;
use artemis::post::default_title;
use artemis::post::load;
use artemis::post::parse_post;
use artemis::post::sort_posts;
use artemis::post::Metadata;
use artemis::post::PostList;

fn post_with(title: &str, date: &str) -> PostList {
    PostList {
        metadata: Metadata {
            date: date.to_string(),
            author: "i4".to_string(),
            title: title.to_string(),
        },
        content: String::new(),
    }
}

#[test]
fn defaults_are_the_documented_values() {
    assert_eq!(default_date(), "M001-00-0000");
    assert_eq!(default_author(), "i4");
    assert_eq!(default_title(), "unknown");
}

#[test]
fn front_matter_file_yields_one_record() {
    let texts = vec!["---\ntitle: Hello\ndate: M01-02-2024\n---world".to_string()];
    let posts = load(&texts).unwrap();
    assert_eq!(posts.len(), 1);
    assert_eq!(posts[0].metadata.title, "Hello");
    assert_eq!(posts[0].metadata.date, "M01-02-2024");
    assert_eq!(posts[0].content, "world");
}

#[test]
fn body_keeps_text_verbatim_after_second_delimiter() {
    let p = parse_post("---\ntitle: Hello\n---\nworld");
    assert_eq!(p.metadata.title, "Hello");
    assert_eq!(p.content, "\nworld");
}

#[test]
fn file_without_front_matter_gets_defaults_and_empty_body() {
    let p = parse_post("just some markdown, no delimiters");
    assert_eq!(p.metadata.title, "unknown");
    assert_eq!(p.metadata.author, "i4");
    assert_eq!(p.metadata.date, "M001-00-0000");
    assert_eq!(p.content, "");
}

#[test]
fn malformed_front_matter_degrades_to_defaults() {
    let p = parse_post("---\n: : not yaml : :\n---body");
    assert_eq!(p.metadata.title, "unknown");
    assert_eq!(p.metadata.date, "M001-00-0000");
    assert_eq!(p.content, "body");
}

#[test]
fn extra_delimiters_concatenate_into_the_body() {
    let p = parse_post("---\ntitle: T\n---one---two");
    assert_eq!(p.content, "onetwo");
}

#[test]
fn loaded_posts_are_most_recent_first() {
    let texts = vec![
        "---\ntitle: a\ndate: M01-01-2024\n---a".to_string(),
        "---\ntitle: b\ndate: M03-01-2024\n---b".to_string(),
        "---\ntitle: c\ndate: M02-01-2024\n---c".to_string(),
    ];
    let posts = load(&texts).unwrap();
    let titles: Vec<&str> = posts.iter().map(|p| p.metadata.title.as_str()).collect();
    assert_eq!(titles, vec!["b", "c", "a"]);
}

#[test]
fn reloading_the_same_fixture_gives_identical_order() {
    let texts = vec![
        "---\ntitle: a\ndate: M05-07-2021\n---".to_string(),
        "---\ntitle: b\ndate: M05-07-2023\n---".to_string(),
        "---\ntitle: c\ndate: M01-01-2022\n---".to_string(),
    ];
    let first = load(&texts).unwrap();
    let second = load(&texts).unwrap();
    assert_eq!(first, second);
}

#[test]
fn unparseable_dates_rank_last() {
    let texts = vec![
        "---\ntitle: undated\n---".to_string(),
        "---\ntitle: dated\ndate: M01-01-2020\n---".to_string(),
    ];
    let posts = load(&texts).unwrap();
    assert_eq!(posts[0].metadata.title, "dated");
    assert_eq!(posts[1].metadata.title, "undated");
}

#[test]
fn two_unparseable_dates_load_without_failing() {
    let texts = vec![
        "---\ntitle: u1\n---".to_string(),
        "---\ntitle: u2\n---".to_string(),
        "---\ntitle: dated\ndate: M06-06-2022\n---".to_string(),
    ];
    let posts = load(&texts).unwrap();
    assert_eq!(posts.len(), 3);
    assert_eq!(posts[0].metadata.title, "dated");
}

#[test]
fn loading_nothing_yields_an_empty_list() {
    let posts = load(&Vec::new()).unwrap();
    assert!(posts.is_empty());
}

#[test]
fn sorting_a_sorted_list_changes_nothing() {
    let mut posts = vec![
        post_with("new", "M12-31-2024"),
        post_with("mid", "M06-15-2024"),
        post_with("old", "M01-01-2024"),
    ];
    let before = posts.clone();
    sort_posts(&mut posts);
    assert_eq!(posts, before);
}

#[test]
fn date_parses_under_the_domain_format() {
    assert_eq!(parse_date("M01-02-2024"), Some((2024, 1, 2)));
    assert_eq!(parse_date("M12-31-1999"), Some((1999, 12, 31)));
    assert_eq!(parse_date("M2-9-24"), Some((24, 2, 9)));
}

#[test]
fn invalid_dates_do_not_parse() {
    assert_eq!(parse_date("M001-00-0000"), None);
    assert_eq!(parse_date("M13-01-2024"), None);
    assert_eq!(parse_date("M00-01-2024"), None);
    assert_eq!(parse_date("M02-30-2024"), None);
    assert_eq!(parse_date("M02-29-2023"), None);
    assert_eq!(parse_date("01-02-2024"), None);
    assert_eq!(parse_date("M01-02"), None);
    assert_eq!(parse_date(""), None);
}

#[test]
fn leap_day_parses_in_a_leap_year() {
    assert_eq!(parse_date("M02-29-2024"), Some((2024, 2, 29)));
    assert_eq!(parse_date("M02-29-2000"), Some((2000, 2, 29)));
    assert_eq!(parse_date("M02-29-1900"), None);
}

#[test]
fn blog_post_finds_the_first_matching_title() {
    let posts = vec![
        post_with("alpha", "M01-01-2024"),
        post_with("beta", "M01-02-2024"),
        post_with("beta", "M01-03-2024"),
    ];
    let found = blog_post(&posts, &"beta".to_string(), "site".to_string(), None).unwrap();
    assert_eq!(found.metadata.date, "M01-02-2024");
    let missing = blog_post(&posts, &"gamma".to_string(), "site".to_string(), None);
    match missing {
        Ok(_) => panic!("a missing title must not resolve"),
        Err(code) => assert_eq!(code, 404),
    }
}

#[test]
fn blog_index_carries_the_post_list_through() {
    let posts = vec![post_with("alpha", "M01-01-2024")];
    let index = blog(posts.clone(), "site".to_string(), Some("t".to_string()));
    assert_eq!(index.posts, posts);
    assert_eq!(index.site, "site");
    assert_eq!(index.title, Some("t".to_string()));
}
