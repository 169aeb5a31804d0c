use quickmark::contact_info;
use quickmark::fence;
use quickmark::footnote_inline;
use quickmark::footnote_references;
use quickmark::front_matter;
use quickmark::nl2br;
use quickmark::parser::BlockRuleName;
use quickmark::parser::InlineRuleName;
use quickmark::parser::MarkdownIt;

#[test]
fn registration_order_is_attempt_order() {
    let mut ab = MarkdownIt::new();
    footnote_references::add(&mut ab);
    footnote_inline::add(&mut ab);
    assert_eq!(
        ab.inline_rules,
        vec![InlineRuleName::FootnoteRef, InlineRuleName::InlineFootnote]
    );

    let mut ba = MarkdownIt::new();
    footnote_inline::add(&mut ba);
    footnote_references::add(&mut ba);
    assert_eq!(
        ba.inline_rules,
        vec![InlineRuleName::InlineFootnote, InlineRuleName::FootnoteRef]
    );
}

#[test]
fn before_all_directive_overrides_registration_order() {
    let mut md = MarkdownIt::new();
    fence::add(&mut md);
    front_matter::add(&mut md);
    assert_eq!(
        md.block_rules,
        vec![BlockRuleName::FrontMatter, BlockRuleName::Fence]
    );
}

#[test]
fn enabling_unused_rule_changes_nothing() {
    let plain = MarkdownIt::new();
    let with_rules = &mut MarkdownIt::new();
    contact_info::add(with_rules);
    nl2br::add(with_rules);
    fence::add(with_rules);

    // no trigger marker of any of those rules occurs in the input
    let input = "plain words only";
    assert_eq!(plain.parse(input).render(), with_rules.parse(input).render());
}

#[test]
fn first_matching_rule_wins() {
    // both the reference rule and the inline-footnote rule are installed;
    // at `[` only the reference rule is attempted, at `^` only the
    // inline-footnote rule
    let parser = &mut MarkdownIt::new();
    footnote_references::add(parser);
    footnote_inline::add(parser);
    let node = parser.parse("a^[x] b");
    let html = node.render();
    assert!(html.contains("fnref1"));
}
