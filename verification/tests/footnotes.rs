use quickmark::footnote;
use quickmark::footnote::FootnoteMap;
use quickmark::parser::MarkdownIt;

#[test]
fn reference_and_definition() {
    let parser = &mut MarkdownIt::new();
    footnote::add(parser);
    let node = parser.parse("[^a]\n\n[^a]: note");
    let html = node.render();
    assert_eq!(
        html,
        "<sup class=\"footnote-ref\"><a href=\"#fn1\" id=\"fnref1\">[1]</a></sup>\n\
         <hr class=\"footnotes-sep\">\n\
         <section class=\"footnotes\">\n\
         <ol class=\"footnotes-list\">\n\
         <li id=\"fn1\" class=\"footnote-item\">\nnote\n</li>\n\
         </ol>\n\
         </section>\n"
    );
}

#[test]
fn unresolved_reference_is_plain_text() {
    let parser = &mut MarkdownIt::new();
    footnote::add(parser);
    let node = parser.parse("[^a]");
    assert_eq!(node.render(), "[^a]\n");
}

#[test]
fn inline_footnote_synthesizes_pair() {
    let parser = &mut MarkdownIt::new();
    footnote::add(parser);
    let node = parser.parse("Example^[inline note]");
    let html = node.render();
    assert!(html.contains("Example<sup class=\"footnote-ref\"><a href=\"#fn1\" id=\"fnref1\">[1]</a></sup>"));
    assert!(html.contains("<li id=\"fn1\" class=\"footnote-item\">"));
    assert!(html.contains("inline note"));
    assert!(html.contains("<section class=\"footnotes\">"));
}

#[test]
fn duplicate_label_first_wins() {
    let mut map = FootnoteMap::new();
    assert_eq!(map.add_def("a"), Some(1));
    assert_eq!(map.add_def("a"), None);
    assert_eq!(map.add_ref("a"), Some((1, 1)));
    assert_eq!(map.add_ref("a"), Some((1, 2)));
    assert_eq!(map.referenced_by(1), vec![1, 2]);
    assert_eq!(map.referenced_by(2), Vec::<usize>::new());
}

#[test]
fn duplicate_definition_falls_through_to_text() {
    let parser = &mut MarkdownIt::new();
    footnote::add(parser);
    let node = parser.parse("[^a]\n\n[^a]: one\n\n[^a]: two");
    let html = node.render();
    assert!(html.contains("<li id=\"fn1\" class=\"footnote-item\">\none\n</li>"));
    assert!(!html.contains("id=\"fn2\""));
    assert!(html.contains(": two"));
}

#[test]
fn unreferenced_definition_is_dropped() {
    let parser = &mut MarkdownIt::new();
    footnote::add(parser);
    let node = parser.parse("just text\n\n[^lonely]: never cited");
    let html = node.render();
    assert_eq!(html, "just text\n");
}

#[test]
fn definitions_keep_document_order() {
    let parser = &mut MarkdownIt::new();
    footnote::add(parser);
    let node = parser.parse("[^b] [^a]\n\n[^a]: first\n\n[^b]: second");
    let html = node.render();
    let fa = html.find("<li id=\"fn1\" class=\"footnote-item\">\nfirst").unwrap();
    let fb = html.find("<li id=\"fn2\" class=\"footnote-item\">\nsecond").unwrap();
    assert!(fa < fb);
}

#[test]
fn inline_def_allocates_fresh_pair() {
    let mut map = FootnoteMap::new();
    assert_eq!(map.add_def("a"), Some(1));
    assert_eq!(map.add_inline_def(), (2, 1));
    assert_eq!(map.referenced_by(2), vec![1]);
}

#[test]
fn multi_line_definition_body() {
    let parser = &mut MarkdownIt::new();
    footnote::add(parser);
    let node = parser.parse("[^n]\n\n[^n]: first line\n    continued");
    let html = node.render();
    assert!(html.contains("first line\ncontinued"));
}

#[test]
fn inline_footnote_skips_nested_tokens() {
    // the closing bracket search skips whole nested constructs: the `]`
    // inside the math span does not close the note
    let parser = &mut MarkdownIt::new();
    footnote::add(parser);
    quickmark::math_inline::add(parser);
    let node = parser.parse("x^[a $b]c$ d] y");
    let html = node.render();
    assert!(html.contains("<math"));
    assert!(html.contains(" y"));
    assert!(html.contains("id=\"fnref1\""));
    // the note body ends at the outer bracket: nothing after `d` leaks in
    assert!(!html.contains("d] y</li>"));
}

#[test]
fn inline_footnote_skips_escaped_brackets() {
    let parser = &mut MarkdownIt::new();
    footnote::add(parser);
    let node = parser.parse("x^[a \\] b] y");
    let html = node.render();
    assert!(html.contains("id=\"fnref1\""));
    assert!(html.contains("a \\] b"));
}
