use quickmark::front_matter;
use quickmark::parser::MarkdownIt;

#[test]
fn it_works() {
    let parser = &mut MarkdownIt::new();
    front_matter::add(parser);
    let node = parser.parse("---\nfoo: bar\n---\nhallo\n");
    assert!(node.children.first().unwrap().is_front_matter());

    let text = node.render();
    assert_eq!(text, "hallo\n")
}

#[test]
fn front_matter_requires_first_line() {
    let parser = &mut MarkdownIt::new();
    front_matter::add(parser);
    let node = parser.parse("intro\n---\nfoo: bar\n---\n");
    assert!(!node.children.first().unwrap().is_front_matter());
}

#[test]
fn front_matter_unclosed_is_text() {
    let parser = &mut MarkdownIt::new();
    front_matter::add(parser);
    let node = parser.parse("---\nfoo: bar\n");
    assert!(!node.children.first().unwrap().is_front_matter());
    assert_eq!(node.render(), "---\nfoo: bar\n");
}
