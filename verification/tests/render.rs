use personal_website::render::{render_to_text, RenderOutcome};

#[test]
fn emphasis_is_rendered() {
    let html = render_to_text("*emphasis*");
    assert!(html.contains("<em>emphasis</em>"));
}

#[test]
fn intra_word_underscores_stay_plain() {
    let html = render_to_text("snake_case_word");
    assert!(!html.contains("<em>"));
    assert!(html.contains("snake_case_word"));
}

#[test]
fn rendering_is_not_the_identity() {
    let html = render_to_text("a paragraph");
    assert_ne!(html, "a paragraph");
    assert!(html.contains("<p>"));
}

#[test]
fn rendering_is_deterministic() {
    let body = "a *little* markup\n\n- with a list\n";
    assert_eq!(render_to_text(body), render_to_text(body));
}

#[test]
fn ordinary_bodies_render() {
    let out = personal_website::render::markdown_to_html("plain body");
    assert!(matches!(out, RenderOutcome::Rendered(_)));
}

#[test]
fn outcome_text_of_fallback() {
    let out = RenderOutcome::Fallback;
    assert_eq!(out.into_text(), "Unable to render body");
}

#[test]
fn outcome_text_of_rendered() {
    let out = RenderOutcome::Rendered("<p>x</p>".to_string());
    assert_eq!(out.into_text(), "<p>x</p>");
}
