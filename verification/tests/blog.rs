use personal_website::blog::BlogPost;

#[test]
fn front_matter_header_then_body() {
    let post = BlogPost::from_text("Title: Hello\nAuthor: Jane\n\nBody text");
    assert_eq!(post.metadata.get("title"), Some(&"Hello".to_string()));
    assert_eq!(post.metadata.get("author"), Some(&"Jane".to_string()));
    assert_eq!(post.metadata.get("body"), None);
    assert_eq!(post.body, "\nBody text");
}

#[test]
fn front_matter_no_header_is_all_body() {
    let text = "just some text\nwith lines\nand no header";
    let post = BlogPost::from_text(text);
    assert!(post.metadata.is_empty());
    assert_eq!(post.body, text);
}

#[test]
fn front_matter_empty_input() {
    let post = BlogPost::from_text("");
    assert!(post.metadata.is_empty());
    assert_eq!(post.body, "");
}

#[test]
fn front_matter_last_binding_wins() {
    let post = BlogPost::from_text("Tag: a\nTag: b\n\nx");
    assert_eq!(post.metadata.get("tag"), Some(&"b".to_string()));
    assert_eq!(post.body, "\nx");
}

#[test]
fn front_matter_key_needs_one_token() {
    // the key before the colon has two tokens, so the whole text is body
    let text = "Some Title: value\nrest";
    let post = BlogPost::from_text(text);
    assert!(post.metadata.is_empty());
    assert_eq!(post.body, text);
}

#[test]
fn front_matter_all_lines_are_metadata() {
    let post = BlogPost::from_text("Title: Hi\nAuthor: Jo\n");
    assert_eq!(post.metadata.get("title"), Some(&"Hi".to_string()));
    assert_eq!(post.metadata.get("author"), Some(&"Jo".to_string()));
    assert_eq!(post.body, "");
}

#[test]
fn front_matter_value_is_trimmed() {
    let post = BlogPost::from_text("Title:    spaced value   \nno more header");
    assert_eq!(post.metadata.get("title"), Some(&"spaced value".to_string()));
    assert_eq!(post.body, "no more header");
}

#[test]
fn front_matter_key_whitespace_is_unicode() {
    // a no-break space splits the key into two tokens, so the line is body
    let text = "K\u{a0}ey: v\nrest";
    let post = BlogPost::from_text(text);
    assert!(post.metadata.is_empty());
    assert_eq!(post.body, text);
}

#[test]
fn front_matter_value_trim_is_unicode() {
    let post = BlogPost::from_text("Title:\u{a0}Hello\u{a0}\nrest");
    assert_eq!(post.metadata.get("title"), Some(&"Hello".to_string()));
}

#[test]
fn front_matter_keys_fold_beyond_ascii() {
    let post = BlogPost::from_text("\u{d6}ffnung: early\nrest");
    assert_eq!(post.metadata.get("\u{f6}ffnung"), Some(&"early".to_string()));
}

#[test]
fn body_renders_to_html() {
    let post = BlogPost::from_text("Title: Hi\n\nplain words");
    let html = post.get_body_as_html();
    assert!(html.contains("plain words"));
}
