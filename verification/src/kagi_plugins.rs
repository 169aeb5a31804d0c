//! The in-house plugin set: registration of the bundled rules, and small
//! helpers shared by them.
use crate::parser::BlockRuleName;
use crate::parser::InlineRuleName;
use crate::parser::MarkdownIt;
use crate::text::spec_contains;
use crate::text::str_contains;
use vstd::prelude::*;
use vstd::string::*;

verus! {

/// Whether the URL points at storage that must be served through the
/// image proxy.
pub fn is_url_to_be_proxied(url: &str) -> (r: bool)
    ensures
        r == spec_contains(url@, "https://storage.googleapis.com/kagi"@),
{
    str_contains(url, "https://storage.googleapis.com/kagi")
}

/// Registers the bundled plugin set: the newline-to-break, citation and
/// contact-link rules, the display-math and inline-math rules, and the
/// highlighted and plain code-fence block rules, the highlighted one
/// attempted first.
pub fn add(md: &mut MarkdownIt)
    requires
        old(md).ext.wf(),
    ensures
        final(md).inline_rules@ == old(md).inline_rules@.push(InlineRuleName::Nl2Br).push(
            InlineRuleName::Citation,
        ).push(InlineRuleName::ContactInfo).push(InlineRuleName::MathDisplay).push(
            InlineRuleName::MathInline,
        ),
        final(md).block_rules@ == old(md).block_rules@.push(BlockRuleName::InkjetFence).push(
            BlockRuleName::Fence,
        ),
        final(md).core_rules@ == old(md).core_rules@,
        final(md).ext.wf(),
        final(md).ext.footnotes() == old(md).ext.footnotes(),
        final(md).ext.fence() == old(md).ext.fence(),
        final(md).ext.citations() matches Some(c) && c.citations@.len() == 0
            && c.open_links_in_new_tab,
{
    crate::nl2br::add(md);
    crate::citation::add(md, crate::citation::CitationSettings::default());
    crate::contact_info::add(md);
    crate::inkjet::add(md);
    crate::math_display::add(md);
    crate::math_inline::add(md);
    crate::fence::add(md);
}

} // verus!
