use personal_website::date::Date;
use personal_website::query::{post_for_display, posts_for_listing};
use personal_website::store::{ContentStore, NewBlogPost, StoreError};
use personal_website::text::slug_of_title;

fn make_draft(title: &str, created: Date, published: bool, url: &str, body: &str) -> NewBlogPost {
    NewBlogPost {
        title: title.to_string(),
        created,
        published,
        url: url.to_string(),
        summary: String::new(),
        body: body.to_string(),
        tags: Vec::new(),
    }
}

fn tagged_draft(title: &str, created: Date, url: &str, tags: &[&str]) -> NewBlogPost {
    NewBlogPost {
        title: title.to_string(),
        created,
        published: true,
        url: url.to_string(),
        summary: String::new(),
        body: "b".to_string(),
        tags: tags.iter().map(|t| t.to_string()).collect(),
    }
}

#[test]
fn created_posts_are_drafts_by_default() {
    let mut store = ContentStore::new();
    let p = store
        .create_post(make_draft("A", Date::new(2020, 1, 1), false, "a", "b"))
        .unwrap();
    assert!(!p.published);
    let q = store
        .create_post(make_draft("B", Date::new(2020, 1, 2), true, "b", "b"))
        .unwrap();
    assert!(q.published);
}

#[test]
fn publish_twice_is_idempotent() {
    let mut store = ContentStore::new();
    store
        .create_post(make_draft("A", Date::new(2020, 1, 1), false, "a", "b"))
        .unwrap();
    let first = store.publish_post(1).unwrap();
    let listing_after_first = store.read_posts();
    let second = store.publish_post(1).unwrap();
    let listing_after_second = store.read_posts();
    assert!(first.published);
    assert!(second.published);
    assert_eq!(first, second);
    assert_eq!(listing_after_first, listing_after_second);
}

#[test]
fn listing_is_sorted_most_recent_first() {
    let mut store = ContentStore::new();
    store
        .create_post(make_draft("Old", Date::new(2019, 5, 1), true, "old", "b"))
        .unwrap();
    store
        .create_post(make_draft("New", Date::new(2021, 1, 3), true, "new", "b"))
        .unwrap();
    store
        .create_post(make_draft("Mid", Date::new(2020, 12, 31), true, "mid", "b"))
        .unwrap();
    let posts = store.read_posts();
    let urls: Vec<&str> = posts.iter().map(|p| p.url.as_str()).collect();
    assert_eq!(urls, vec!["new", "mid", "old"]);
}

#[test]
fn listing_ties_keep_insertion_order() {
    let mut store = ContentStore::new();
    let day = Date::new(2020, 6, 15);
    store.create_post(make_draft("A", day, true, "a", "b")).unwrap();
    store.create_post(make_draft("B", day, true, "b", "b")).unwrap();
    store
        .create_post(make_draft("C", Date::new(2020, 6, 16), true, "c", "b"))
        .unwrap();
    let posts = store.read_posts();
    let ids: Vec<i32> = posts.iter().map(|p| p.id).collect();
    assert_eq!(ids, vec![3, 1, 2]);
}

#[test]
fn empty_tag_set_lists_all_published() {
    let mut store = ContentStore::new();
    store
        .create_post(tagged_draft("A", Date::new(2020, 1, 1), "a", &["x"]))
        .unwrap();
    store
        .create_post(tagged_draft("B", Date::new(2020, 2, 1), "b", &[]))
        .unwrap();
    store
        .create_post(make_draft("C", Date::new(2020, 3, 1), false, "c", "b"))
        .unwrap();
    let by_empty_tags = store.read_tagged_posts(Vec::new());
    let published = store.read_posts();
    assert_eq!(by_empty_tags, published);
    assert_eq!(by_empty_tags.len(), 2);
}

#[test]
fn single_tag_selects_exactly_the_tagged() {
    let mut store = ContentStore::new();
    store
        .create_post(tagged_draft("A", Date::new(2020, 1, 1), "a", &["rust", "blog"]))
        .unwrap();
    store
        .create_post(tagged_draft("B", Date::new(2020, 2, 1), "b", &["blog"]))
        .unwrap();
    store
        .create_post(tagged_draft("C", Date::new(2020, 3, 1), "c", &["misc"]))
        .unwrap();
    // an unpublished post with the tag stays hidden
    let mut hidden = tagged_draft("D", Date::new(2020, 4, 1), "d", &["rust"]);
    hidden.published = false;
    store.create_post(hidden).unwrap();

    let rust_posts = store.read_tagged_posts(vec!["rust".to_string()]);
    let urls: Vec<&str> = rust_posts.iter().map(|p| p.url.as_str()).collect();
    assert_eq!(urls, vec!["a"]);

    let blog_posts = store.read_tagged_posts(vec!["blog".to_string()]);
    let urls: Vec<&str> = blog_posts.iter().map(|p| p.url.as_str()).collect();
    assert_eq!(urls, vec!["b", "a"]);
}

#[test]
fn update_body_changes_only_the_body() {
    let mut store = ContentStore::new();
    let before = store
        .create_post(tagged_draft("A", Date::new(2020, 1, 1), "a", &["x"]))
        .unwrap();
    let after = store.update_body(1, "a fresh body").unwrap();
    assert_eq!(after.body, "a fresh body");
    assert_eq!(after.id, before.id);
    assert_eq!(after.title, before.title);
    assert_eq!(after.created, before.created);
    assert_eq!(after.published, before.published);
    assert_eq!(after.url, before.url);
    assert_eq!(after.summary, before.summary);
    assert_eq!(after.tags, before.tags);
}

#[test]
fn update_body_of_missing_post_is_not_found() {
    let mut store = ContentStore::new();
    let r = store.update_body(7, "x");
    assert_eq!(r.unwrap_err(), StoreError::NotFound);
}

#[test]
fn update_body_refuses_empty_body() {
    let mut store = ContentStore::new();
    store
        .create_post(make_draft("A", Date::new(2020, 1, 1), false, "a", "b"))
        .unwrap();
    let r = store.update_body(1, "");
    assert_eq!(r.unwrap_err(), StoreError::EmptyBody);
}

#[test]
fn publish_of_missing_post_is_not_found() {
    let mut store = ContentStore::new();
    let r = store.publish_post(3);
    assert_eq!(r.unwrap_err(), StoreError::NotFound);
}

#[test]
fn create_rejects_empty_title() {
    let mut store = ContentStore::new();
    let r = store.create_post(make_draft("", Date::new(2020, 1, 1), false, "a", "b"));
    assert_eq!(r.unwrap_err(), StoreError::EmptyTitle);
}

#[test]
fn create_rejects_empty_body() {
    let mut store = ContentStore::new();
    let r = store.create_post(make_draft("A", Date::new(2020, 1, 1), false, "a", ""));
    assert_eq!(r.unwrap_err(), StoreError::EmptyBody);
}

#[test]
fn create_rejects_empty_url() {
    let mut store = ContentStore::new();
    let r = store.create_post(make_draft("A", Date::new(2020, 1, 1), false, "", "b"));
    assert_eq!(r.unwrap_err(), StoreError::EmptyUrl);
}

#[test]
fn create_rejects_duplicate_url() {
    let mut store = ContentStore::new();
    store
        .create_post(make_draft("A", Date::new(2020, 1, 1), false, "same", "b"))
        .unwrap();
    let r = store.create_post(make_draft("B", Date::new(2020, 1, 2), false, "same", "b"));
    assert_eq!(r.unwrap_err(), StoreError::DuplicateUrl);
}

#[test]
fn slug_derivation() {
    assert_eq!(slug_of_title("My First Post"), "my-first-post");
    assert_eq!(slug_of_title("already-lower"), "already-lower");
    assert_eq!(slug_of_title("Mixed CASE Words"), "mixed-case-words");
    // lowercasing covers the full alphabet, not only ASCII
    assert_eq!(slug_of_title("\u{c4}rger \u{dc}ber Gro\u{df}e Titel"), "\u{e4}rger-\u{fc}ber-gro\u{df}e-titel");
}

#[test]
fn create_then_publish_end_to_end() {
    let mut store = ContentStore::new();
    let created = store
        .create_titled(
            "My First Post".to_string(),
            Date::new(2022, 3, 4),
            false,
            "a summary".to_string(),
            "the body".to_string(),
            vec!["intro".to_string()],
        )
        .unwrap();
    assert_eq!(created.url, "my-first-post");

    let listing = posts_for_listing(&store);
    assert!(listing.is_empty());

    store.publish_post(created.id).unwrap();
    let listing = posts_for_listing(&store);
    let matches: Vec<&str> = listing
        .iter()
        .filter(|p| p.url == "my-first-post")
        .map(|p| p.url.as_str())
        .collect();
    assert_eq!(matches.len(), 1);
}

#[test]
fn display_renders_the_body() {
    let mut store = ContentStore::new();
    store
        .create_post(make_draft("A", Date::new(2020, 1, 1), true, "a", "*emphasis*"))
        .unwrap();
    let shown = post_for_display(&store, "a").unwrap();
    assert!(shown.body.contains("<em>emphasis</em>"));
    assert_eq!(shown.url, "a");
}

#[test]
fn display_of_unknown_slug_is_not_found() {
    let mut store = ContentStore::new();
    store
        .create_post(make_draft("A", Date::new(2020, 1, 1), true, "a", "b"))
        .unwrap();
    let r = post_for_display(&store, "missing");
    assert_eq!(r.unwrap_err(), StoreError::NotFound);
}

#[test]
fn display_skips_unpublished_posts() {
    let mut store = ContentStore::new();
    store
        .create_post(make_draft("A", Date::new(2020, 1, 1), false, "a", "b"))
        .unwrap();
    let r = post_for_display(&store, "a");
    assert_eq!(r.unwrap_err(), StoreError::NotFound);
}
