use personal_website::date::Date;
use personal_website::store::{BlogPost, ContentStore, NewBlogPost};

fn draft(
    title: &str,
    created: Date,
    published: bool,
    url: &str,
    summary: &str,
    body: &str,
    tags: &[&str],
) -> NewBlogPost {
    NewBlogPost {
        title: title.to_string(),
        created,
        published,
        url: url.to_string(),
        summary: summary.to_string(),
        body: body.to_string(),
        tags: tags.iter().map(|t| t.to_string()).collect(),
    }
}

#[test]
fn test_create_post() {
    let mut store = ContentStore::new();
    assert_eq!(0, store.read_posts().len());

    let new_post = draft(
        "New Post Title",
        Date::new(2016, 8, 5),
        false,
        "new-post",
        "A new summary",
        "A new body",
        &["new", "post"],
    );

    let added = store.create_post(new_post).unwrap();

    let expected_post = BlogPost {
        id: 1,
        title: "New Post Title".to_string(),
        created: Date::new(2016, 8, 5),
        published: false,
        url: "new-post".to_string(),
        summary: "A new summary".to_string(),
        body: "A new body".to_string(),
        tags: vec!["new".to_string(), "post".to_string()],
    };

    assert_eq!(expected_post, added);
    let actual_post = store.get_post(1).unwrap();
    assert_eq!(expected_post, actual_post);
}

#[test]
fn test_read_posts() {
    let mut store = ContentStore::new();
    let mut posts = store.read_posts();

    assert!(posts.is_empty());

    store
        .create_post(draft(
            "Test Post",
            Date::new(2016, 7, 22),
            false,
            "test-post",
            "A test post",
            "A body",
            &["test"],
        ))
        .unwrap();
    posts = store.read_posts();
    assert!(posts.is_empty());

    let _ = store.publish_post(1);
    posts = store.read_posts();
    assert_eq!(1, posts.len());

    store
        .create_post(draft(
            "Test Post",
            Date::new(2016, 8, 22),
            true,
            "test-post-2",
            "A test post",
            "A body",
            &["test"],
        ))
        .unwrap();
    posts = store.read_posts();
    assert_eq!(2, posts.len());
    assert_eq!(Date::new(2016, 8, 22), posts[0].created);
    assert_eq!(Date::new(2016, 7, 22), posts[1].created);
}

#[test]
fn test_read_tagged_posts() {
    let mut store = ContentStore::new();
    store
        .create_post(draft(
            "Test Post",
            Date::new(2016, 7, 22),
            true,
            "test-post",
            "A test post",
            "A body",
            &["test", "post"],
        ))
        .unwrap();
    let mut posts = store.read_tagged_posts(vec!["nottest".to_string()]);
    assert!(posts.is_empty());

    posts = store.read_tagged_posts(vec!["test".to_string()]);
    assert_eq!(1, posts.len());

    store
        .create_post(draft(
            "Test Post",
            Date::new(2016, 8, 22),
            true,
            "test-post-2",
            "A test post",
            "A body",
            &["post"],
        ))
        .unwrap();
    posts = store.read_tagged_posts(vec!["post".to_string()]);
    assert_eq!(2, posts.len());
}

#[test]
fn test_publish_post() {
    let mut store = ContentStore::new();
    store
        .create_post(draft(
            "Test Post",
            Date::new(2016, 7, 22),
            false,
            "test-post",
            "A test post",
            "A body",
            &["test"],
        ))
        .unwrap();
    store
        .create_post(draft(
            "Test Post",
            Date::new(2016, 8, 22),
            false,
            "test-post-2",
            "A test post",
            "A body",
            &["post"],
        ))
        .unwrap();

    store.publish_post(1).unwrap();

    let post1 = store.get_post(1).unwrap();
    let post2 = store.get_post(2).unwrap();
    assert_eq!(true, post1.published);
    assert_eq!(false, post2.published);
}
