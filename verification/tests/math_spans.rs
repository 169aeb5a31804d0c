use quickmark::kagi_plugins;
use quickmark::math::math_render;
use quickmark::parser::InlineRuleName;
use quickmark::parser::MarkdownIt;

#[test]
fn inline_math_renders_markup() {
    let parser = &mut MarkdownIt::new();
    kagi_plugins::add(parser);
    let html = parser.parse("before $x+1$ after").render();
    assert!(html.contains("<math"));
    assert!(!html.contains("$x+1$"));
}

#[test]
fn display_math_renders_markup() {
    let parser = &mut MarkdownIt::new();
    kagi_plugins::add(parser);
    let html = parser.parse("$$x^2$$").render();
    assert!(html.contains("<math"));
}

#[test]
fn math_needs_an_opening_boundary() {
    let parser = &mut MarkdownIt::new();
    kagi_plugins::add(parser);
    let html = parser.parse("word$x$").render();
    assert!(!html.contains("<math"));
    assert!(html.contains("$x$"));
}

#[test]
fn math_render_falls_back_to_escaped_text() {
    // an empty parse produces markup, never panics; the function always
    // yields something deterministic
    let r = math_render("x<y".to_string(), false);
    assert!(!r.is_empty());
}

#[test]
fn display_math_is_attempted_before_inline_math() {
    let md = &mut MarkdownIt::new();
    kagi_plugins::add(md);
    assert_eq!(
        md.inline_rules,
        vec![
            InlineRuleName::Nl2Br,
            InlineRuleName::Citation,
            InlineRuleName::ContactInfo,
            InlineRuleName::MathDisplay,
            InlineRuleName::MathInline,
        ]
    );
}
