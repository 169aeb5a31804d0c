//! Newline-to-break: each newline inside inline content renders as a line
//! break element.
use crate::node::Node;
use crate::node::NodeValue;
use crate::parser::InlineRuleName;
use crate::parser::MarkdownIt;
use vstd::prelude::*;
use vstd::string::*;

verus! {

/// AST node for a converted newline.
pub struct InlineNL2BR {
}

/// Matches exactly one newline at the current position.
pub fn nl2br_run(src: &str, pos: usize, pos_max: usize) -> (r: Option<(Node, usize)>)
    requires
        pos < pos_max <= src@.len(),
    ensures
        src@[pos as int] == '\n' ==> (r matches Some((n, len)) && len == 1 && n.value is Nl2Br
            && n.children@.len() == 0 && n.attrs@.len() == 0),
        src@[pos as int] != '\n' ==> r is None,
{
    if src.get_char(pos) == '\n' {
        Some((Node::new(NodeValue::Nl2Br(InlineNL2BR {  })), 1))
    } else {
        None
    }
}

/// Registers the newline-to-break inline rule.
pub fn add(md: &mut MarkdownIt)
    ensures
        final(md).inline_rules@ == old(md).inline_rules@.push(InlineRuleName::Nl2Br),
        final(md).block_rules@ == old(md).block_rules@,
        final(md).core_rules@ == old(md).core_rules@,
        final(md).ext == old(md).ext,
{
    md.add_inline_rule(InlineRuleName::Nl2Br);
}

} // verus!
