use quickmark::citation;
use quickmark::citation::citation_to_html;
use quickmark::citation::CitationQM;
use quickmark::citation::CitationSettings;
use quickmark::parser::MarkdownIt;

fn one_citation(source: &str) -> CitationSettings {
    CitationSettings {
        citations: vec![CitationQM {
            index: 7,
            title: "A title".to_string(),
            source: source.to_string(),
            passage: String::new(),
            md_offset: 0,
        }],
        open_links_in_new_tab: true,
    }
}

#[test]
fn citation_marker_renders_source_link() {
    let parser = &mut MarkdownIt::new();
    citation::add(parser, one_citation("https://example.com/p"));
    let html = parser.parse("fact【0】").render();
    assert_eq!(
        html,
        "fact<sup><a href=\"https://example.com/p\" target=\"_blank\">7</a></sup>\n"
    );
}

#[test]
fn citation_without_url_source_gets_bare_anchor() {
    let parser = &mut MarkdownIt::new();
    citation::add(parser, one_citation("a book"));
    let html = parser.parse("fact【0】").render();
    assert_eq!(html, "fact<sup><a>7</a></sup>\n");
}

#[test]
fn citation_with_unknown_index_is_text() {
    let parser = &mut MarkdownIt::new();
    citation::add(parser, one_citation("https://example.com/p"));
    let html = parser.parse("fact【3】").render();
    assert_eq!(html, "fact【3】\n");
}

#[test]
fn citation_to_html_shapes() {
    assert_eq!(
        citation_to_html(true, "https://e.com", 2, false),
        "<a href=\"https://e.com\">2</a>"
    );
    assert_eq!(citation_to_html(false, "", 3, true), "<a>3</a>");
}
