use quickmark::contact_info;
use quickmark::parser::MarkdownIt;
use quickmark::preprocess::preprocess;
use quickmark::preprocess::renumber_citations;

#[test]
fn citations_renumber_from_zero() {
    assert_eq!(renumber_citations("a【3】b【17】c"), "a【0】b【1】c");
}

#[test]
fn citation_without_digits_is_kept() {
    assert_eq!(renumber_citations("【】 and 【x】"), "【】 and 【x】");
}

#[test]
fn preprocess_runs_only_enabled_steps() {
    let none: Vec<String> = Vec::new();
    assert_eq!(preprocess("see 【9】", &none), "see 【9】");
    let cite = vec!["citation".to_string()];
    assert_eq!(preprocess("see 【9】", &cite), "see 【0】");
}

#[test]
fn preprocess_wraps_contact_spans() {
    let enabled = vec!["kagi_contact_info".to_string()];
    assert_eq!(
        preprocess("mail joe@example.com now", &enabled),
        "mail <mailto:joe@example.com> now"
    );
    assert_eq!(
        preprocess("call 555-123-4567 now", &enabled),
        "call <tel:555-123-4567> now"
    );
}

#[test]
fn preprocessed_contact_becomes_anchor() {
    let enabled = vec!["kagi_contact_info".to_string()];
    let src = preprocess("mail joe@example.com now", &enabled);
    let parser = &mut MarkdownIt::new();
    contact_info::add(parser);
    let html = parser.parse(src.as_str()).render();
    assert_eq!(
        html,
        "mail <a href=\"mailto:joe@example.com\">joe@example.com</a> now\n"
    );
}
