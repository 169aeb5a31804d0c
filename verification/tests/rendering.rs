use quickmark::contact_info;
use quickmark::fence;
use quickmark::nl2br;
use quickmark::parser::MarkdownIt;
use quickmark::renderer::Renderer;

#[test]
fn text_always_escapes() {
    let mut fmt = Renderer::new(false);
    fmt.text("a < b & c > d \"e\"");
    assert_eq!(fmt.into_string(), "a &lt; b &amp; c &gt; d &quot;e&quot;");
}

#[test]
fn text_escapes_already_escaped_content_again() {
    let mut fmt = Renderer::new(false);
    fmt.text("&amp;");
    assert_eq!(fmt.into_string(), "&amp;amp;");
}

#[test]
fn text_raw_never_escapes() {
    let mut fmt = Renderer::new(false);
    fmt.text_raw("&amp; <b>");
    assert_eq!(fmt.into_string(), "&amp; <b>");
}

#[test]
fn open_close_and_attrs() {
    let mut fmt = Renderer::new(false);
    let attrs = vec![("class".to_string(), "a\"b".to_string())];
    fmt.open("span", &attrs);
    fmt.text("x");
    fmt.close("span");
    assert_eq!(fmt.into_string(), "<span class=\"a&quot;b\">x</span>");
}

#[test]
fn self_close_tag_modes() {
    let mut plain = Renderer::new(false);
    plain.self_close("br", &Vec::new());
    assert_eq!(plain.into_string(), "<br>");

    let mut x = Renderer::new(true);
    x.self_close("br", &Vec::new());
    assert_eq!(x.into_string(), "<br />");
}

#[test]
fn cr_never_doubles_newlines() {
    let mut fmt = Renderer::new(false);
    fmt.cr();
    fmt.text("a");
    fmt.cr();
    fmt.cr();
    assert_eq!(fmt.into_string(), "a\n");
}

#[test]
fn nl2br_renders_break() {
    let parser = &mut MarkdownIt::new();
    nl2br::add(parser);
    let node = parser.parse("a\nb");
    assert_eq!(node.render(), "a<br>\nb\n");
    assert_eq!(node.xrender(), "a<br />\nb\n");
}

#[test]
fn fence_renders_code_wrapper() {
    let parser = &mut MarkdownIt::new();
    fence::add(parser);
    let node = parser.parse("```rust\nlet x = 1;\n```\n");
    assert_eq!(
        node.render(),
        "<div class=\"codehilite\"><span class=\"filename\">rust</span>\
         <pre><span></span><code>let x = 1;\n</code></pre></div>\n"
    );
}

#[test]
fn fence_escapes_content() {
    let parser = &mut MarkdownIt::new();
    fence::add(parser);
    let node = parser.parse("```\n<b>&\n```\n");
    let html = node.render();
    assert!(html.contains("<code>&lt;b&gt;&amp;\n</code>"));
}

#[test]
fn unclosed_fence_autocloses() {
    let parser = &mut MarkdownIt::new();
    fence::add(parser);
    let node = parser.parse("```\ncode line");
    let html = node.render();
    assert!(html.contains("<code>code line\n</code>"));
}

#[test]
fn contact_info_renders_anchor() {
    let parser = &mut MarkdownIt::new();
    contact_info::add(parser);
    let node = parser.parse("<mailto:joe@example.com>");
    assert_eq!(
        node.render(),
        "<a href=\"mailto:joe@example.com\">joe@example.com</a>\n"
    );
}

#[test]
fn contact_info_phone_is_cleaned() {
    let parser = &mut MarkdownIt::new();
    contact_info::add(parser);
    let node = parser.parse("<tel:+1 (555) 123-4567>");
    assert_eq!(
        node.render(),
        "<a href=\"tel:+15551234567\">+1 (555) 123-4567</a>\n"
    );
}

#[test]
fn inkjet_fence_emits_wrapper_markup() {
    let parser = &mut quickmark::parser::MarkdownIt::new();
    quickmark::inkjet::add(parser);
    let node = parser.parse("```rust\nlet s = \"a/b\";\n```\n");
    assert_eq!(
        node.render(),
        "<div class=\"codehilite\"><span class=\"filename\">rust</span>\
         <pre><span></span><code>let s = &quot;a&#x2f;b&quot;;\n</code></pre></div>\n"
    );
}

#[test]
fn inkjet_rejects_fences_on_one_line_and_tildes() {
    let parser = &mut quickmark::parser::MarkdownIt::new();
    quickmark::inkjet::add(parser);
    quickmark::fence::add(parser);
    // a tilde fence has no backtick run, so only the plain fence rule takes it
    let node = parser.parse("~~~\nbody\n~~~\n");
    assert!(node.render().contains("<span class=\"filename\"></span>"));
}
