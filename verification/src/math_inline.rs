//! Inline math: `$...$` spans.
//!
//! A span is only considered when the dollar stands at the start of the
//! text or after whitespace or one of a few opening characters, and the
//! span itself is matched by an anchored pattern that forbids padding
//! inside the delimiters.
use crate::github_slugger::is_unicode_ws;
use crate::math::decoded_entities_of;
use crate::math::fancy_found;
use crate::math::fancy_match_chars;
use crate::math::fancy_math_group;
use crate::math::decode_entities;
use crate::math::fancy_captures_math;
use crate::node::Node;
use crate::node::NodeValue;
use crate::parser::InlineRuleName;
use crate::parser::MarkdownIt;
use vstd::prelude::*;
use vstd::string::*;

verus! {

/// AST node for an inline math span.
pub struct InlineMath {
    pub math: String,
    pub cache: bool,
}

/// The pattern that recognizes an inline math span at the head of the
/// remaining text.
pub open spec fn inline_math_pattern() -> Seq<char> {
    r"^\$(?P<sp>\s?)(?!\$|\s)(?P<math>[^$\\]*(?:\\.[^$\\]*)*)(?<!\\|\s)(?P=sp)\$(?!\$|[A-Za-z0-9_])"@
}

/// Whether the character before the span allows a math span to open.
pub open spec fn spec_math_opener(c: char) -> bool {
    c == '*' || c == '(' || c == '\u{ff1a}' || is_unicode_ws(c)
}

/// What an inline-math scan yields: the consumed character count and the
/// decoded math text.
pub open spec fn spec_inline_math(s: Seq<char>, pos: int, pos_max: int) -> Option<
    (int, Seq<char>),
> {
    if !(0 <= pos < pos_max <= s.len()) || s[pos] != '$' {
        None
    } else if pos > 0 && !spec_math_opener(s[pos - 1]) {
        None
    } else {
        let input = s.subrange(pos, pos_max);
        if fancy_found(inline_math_pattern(), input) {
            let len = fancy_match_chars(inline_math_pattern(), input);
            if 1 <= len <= pos_max - pos {
                Some((len, decoded_entities_of(fancy_math_group(inline_math_pattern(), input))))
            } else {
                None
            }
        } else {
            None
        }
    }
}

/// Matches an inline math span at the current position.
pub fn math_inline_run(src: &str, pos: usize, pos_max: usize) -> (r: Option<(Node, usize)>)
    requires
        pos < pos_max <= src@.len(),
    ensures
        match spec_inline_math(src@, pos as int, pos_max as int) {
            Some((len, math)) => r matches Some((n, cnt)) && {
                &&& cnt == len
                &&& 1 <= cnt <= pos_max - pos
                &&& n.children@.len() == 0
                &&& n.attrs@.len() == 0
                &&& n.value matches NodeValue::MathInline(m) && m.math@ == math && !m.cache
            },
            None => r is None,
        },
{
    if src.get_char(pos) != '$' {
        return None;
    }
    if pos > 0 {
        let prev = src.get_char(pos - 1);
        let ws = crate::github_slugger::char_is_whitespace(prev);
        if !(prev == '*' || prev == '(' || prev == '\u{ff1a}' || ws) {
            return None;
        }
    }
    let input = src.substring_char(pos, pos_max);
    let found = fancy_captures_math(
        r"^\$(?P<sp>\s?)(?!\$|\s)(?P<math>[^$\\]*(?:\\.[^$\\]*)*)(?<!\\|\s)(?P=sp)\$(?!\$|[A-Za-z0-9_])",
        input,
    );
    match found {
        None => None,
        Some((len, group)) => {
            if len < 1 || len > pos_max - pos {
                return None;
            }
            let math = decode_entities(group.as_str());
            let node = Node::new(NodeValue::MathInline(InlineMath { math, cache: false }));
            Some((node, len))
        },
    }
}

/// Registers the inline math rule.
pub fn add(md: &mut MarkdownIt)
    ensures
        final(md).inline_rules@ == old(md).inline_rules@.push(InlineRuleName::MathInline),
        final(md).block_rules@ == old(md).block_rules@,
        final(md).core_rules@ == old(md).core_rules@,
        final(md).ext == old(md).ext,
{
    md.add_inline_rule(InlineRuleName::MathInline);
}

} // verus!
