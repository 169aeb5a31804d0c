//! Display math: `$$...$$` blocks inside inline content.
use crate::math::decoded_entities_of;
use crate::math::fancy_found;
use crate::math::fancy_match_chars;
use crate::math::fancy_math_group;
use crate::math::decode_entities;
use crate::math::fancy_captures_math;
use crate::node::Node;
use crate::node::NodeValue;
use crate::parser::InlineRuleName;
use crate::parser::MarkdownIt;
use vstd::prelude::*;
use vstd::string::*;

verus! {

/// AST node for a display math block.
pub struct DisplayMath {
    pub math: String,
    pub cache: bool,
}

/// The pattern that recognizes a display math block at the head of the
/// remaining text.
pub open spec fn display_math_pattern() -> Seq<char> {
    r"(?s)^\$\$(?:\n)?(?P<math>.*?)(?<!\\)(?:\n)?\$\$"@
}

/// What a display-math scan yields: the consumed character count and the
/// decoded math text.
pub open spec fn spec_display_math(s: Seq<char>, pos: int, pos_max: int) -> Option<
    (int, Seq<char>),
> {
    if !(0 <= pos && pos + 2 <= pos_max <= s.len()) || s[pos] != '$' || s[pos + 1] != '$' {
        None
    } else if pos > 0 && s[pos - 1] == '\\' {
        None
    } else {
        let input = s.subrange(pos, pos_max);
        if fancy_found(display_math_pattern(), input) {
            let len = fancy_match_chars(display_math_pattern(), input);
            if 4 <= len <= pos_max - pos {
                Some((len, decoded_entities_of(fancy_math_group(display_math_pattern(), input))))
            } else {
                None
            }
        } else {
            None
        }
    }
}

/// Matches a display math block at the current position.
pub fn math_display_run(src: &str, pos: usize, pos_max: usize) -> (r: Option<(Node, usize)>)
    requires
        pos < pos_max <= src@.len(),
    ensures
        match spec_display_math(src@, pos as int, pos_max as int) {
            Some((len, math)) => r matches Some((n, cnt)) && {
                &&& cnt == len
                &&& 1 <= cnt <= pos_max - pos
                &&& n.children@.len() == 0
                &&& n.attrs@.len() == 0
                &&& n.value matches NodeValue::MathDisplay(m) && m.math@ == math && !m.cache
            },
            None => r is None,
        },
{
    if !(pos + 1 < pos_max && src.get_char(pos) == '$' && src.get_char(pos + 1) == '$') {
        return None;
    }
    if pos > 0 && src.get_char(pos - 1) == '\\' {
        return None;
    }
    let input = src.substring_char(pos, pos_max);
    let found = fancy_captures_math(r"(?s)^\$\$(?:\n)?(?P<math>.*?)(?<!\\)(?:\n)?\$\$", input);
    match found {
        None => None,
        Some((len, group)) => {
            // a display block is at least the two delimiter pairs long
            if len < 4 || len > pos_max - pos {
                return None;
            }
            let math = decode_entities(group.as_str());
            let node = Node::new(NodeValue::MathDisplay(DisplayMath { math, cache: false }));
            Some((node, len))
        },
    }
}

/// Registers the display math rule.
pub fn add(md: &mut MarkdownIt)
    ensures
        final(md).inline_rules@ == old(md).inline_rules@.push(InlineRuleName::MathDisplay),
        final(md).block_rules@ == old(md).block_rules@,
        final(md).core_rules@ == old(md).core_rules@,
        final(md).ext == old(md).ext,
{
    md.add_inline_rule(InlineRuleName::MathDisplay);
}

} // verus!
