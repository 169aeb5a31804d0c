//! The parser configuration: the ordered registries of block, inline and
//! core (whole-document) rules, and the parser-scoped extension state.
//!
//! The registries are built once, before parsing, and are immutable during
//! a parse.  Rules are attempted in registry order; a placement directive
//! at registration time (registering a rule before all others) is the only
//! thing that overrides plain registration order.
use crate::block::block_parse;
use crate::block::spec_block;
use crate::block::spec_lines;
use crate::block::split_lines;
use crate::extset::ExtSet;
use crate::footnote::FmModel;
use crate::footnote_collect::footnote_collect_run;
use crate::footnote_collect::spec_collect_applied;
use crate::inline::inline_pass;
use crate::inline::spec_pass_seq;
use crate::node::seq_model;
use crate::node::Node;
use crate::node::NodeModel;
use crate::node::NodeValue;
use crate::node::Root;
use crate::node::ValueModel;
use vstd::prelude::*;
use vstd::string::*;

verus! {

/// A registered block rule.
#[derive(PartialEq, Eq, Structural, Clone, Copy, Debug)]
pub enum BlockRuleName {
    FrontMatter,
    Fence,
    InkjetFence,
    FootnoteDef,
}

/// A registered inline rule.
#[derive(PartialEq, Eq, Structural, Clone, Copy, Debug)]
pub enum InlineRuleName {
    Nl2Br,
    ContactInfo,
    FootnoteRef,
    InlineFootnote,
    MathDisplay,
    MathInline,
    Citation,
}

/// A registered whole-document rewrite pass.
#[derive(PartialEq, Eq, Structural, Clone, Copy, Debug)]
pub enum CoreRuleName {
    FootnoteCollect,
}

/// The parser: rule registries and parser-scoped extension state.
pub struct MarkdownIt {
    pub block_rules: Vec<BlockRuleName>,
    pub inline_rules: Vec<InlineRuleName>,
    pub core_rules: Vec<CoreRuleName>,
    pub ext: ExtSet,
    pub max_indent: usize,
}

impl MarkdownIt {
    /// A parser with no rules registered and no extension state.
    pub fn new() -> (md: MarkdownIt)
        ensures
            md.block_rules@ == Seq::<BlockRuleName>::empty(),
            md.inline_rules@ == Seq::<InlineRuleName>::empty(),
            md.core_rules@ == Seq::<CoreRuleName>::empty(),
            md.ext.wf(),
            md.ext.fence() is None,
            md.max_indent == 4,
    {
        MarkdownIt {
            block_rules: Vec::new(),
            inline_rules: Vec::new(),
            core_rules: Vec::new(),
            ext: ExtSet::new(),
            max_indent: 4,
        }
    }

    /// Registers a block rule after all previously registered ones.
    pub fn add_block_rule(&mut self, r: BlockRuleName)
        ensures
            final(self).block_rules@ == old(self).block_rules@.push(r),
            final(self).inline_rules@ == old(self).inline_rules@,
            final(self).core_rules@ == old(self).core_rules@,
            final(self).ext == old(self).ext,
            final(self).max_indent == old(self).max_indent,
    {
        self.block_rules.push(r);
    }

    /// Registers a block rule before all previously registered ones: the
    /// placement directive that overrides plain registration order.
    pub fn add_block_rule_before_all(&mut self, r: BlockRuleName)
        ensures
            final(self).block_rules@ == seq![r] + old(self).block_rules@,
            final(self).inline_rules@ == old(self).inline_rules@,
            final(self).core_rules@ == old(self).core_rules@,
            final(self).ext == old(self).ext,
            final(self).max_indent == old(self).max_indent,
    {
        self.block_rules.insert(0, r);
        proof {
            assert(self.block_rules@ =~= seq![r] + old(self).block_rules@);
        }
    }

    /// Registers an inline rule after all previously registered ones.
    pub fn add_inline_rule(&mut self, r: InlineRuleName)
        ensures
            final(self).inline_rules@ == old(self).inline_rules@.push(r),
            final(self).block_rules@ == old(self).block_rules@,
            final(self).core_rules@ == old(self).core_rules@,
            final(self).ext == old(self).ext,
            final(self).max_indent == old(self).max_indent,
    {
        self.inline_rules.push(r);
    }

    /// Registers a whole-document pass after all previously registered ones.
    pub fn add_core_rule(&mut self, r: CoreRuleName)
        ensures
            final(self).core_rules@ == old(self).core_rules@.push(r),
            final(self).block_rules@ == old(self).block_rules@,
            final(self).inline_rules@ == old(self).inline_rules@,
            final(self).ext == old(self).ext,
            final(self).max_indent == old(self).max_indent,
    {
        self.core_rules.push(r);
    }

    /// Parses a document: the block pass builds the top-level tree, the
    /// inline pass tokenizes each paragraph's text, the root-scoped
    /// extension state is attached to the root, and the registered
    /// whole-document passes then run in registry order.  The resulting
    /// tree is exactly what the composed parsing model yields for the
    /// source and this configuration.
    pub fn parse(&self, src: &str) -> (root: Node)
        requires
            self.ext.wf(),
        ensures
            root.value is Root,
            root.ext.wf(),
            root.attrs@.len() == 0,
            root.to_model() == (NodeModel {
                value: ValueModel::Root,
                attrs: Seq::empty(),
                children: spec_parse_models(*self, src@),
            }),
    {
        let ghost views = spec_lines(src@);
        let ghost stage1 = spec_block(*self, views, 0, None::<FmModel>);
        let ghost stage2 = spec_pass_seq(*self, stage1.0, stage1.1);
        let lines = split_lines(src);
        let mut ext = ExtSet::new();
        let children = block_parse(self, &lines, &mut ext);
        let mut root = Node::new(NodeValue::Root(Root {  }));
        proof {
            assert(seq_model(root.children@) =~= Seq::<NodeModel>::empty());
        }
        root.children = children;
        proof {
            assert(crate::node::attr_model(root.attrs@)
                =~= Seq::<(Seq<char>, Seq<char>)>::empty());
            assert(root.to_model().children == stage1.0);
            assert(ext.footnotes_model() == stage1.1);
        }
        let mut root = inline_pass(self, root, &mut ext);
        proof {
            assert(root.to_model().children == stage2.0);
            assert(ext.footnotes_model() == stage2.1);
        }
        root.ext = ext;
        proof {
            assert(seq_model(root.children@) == stage2.0);
        }
        let ncr = self.core_rules.len();
        let mut i: usize = 0;
        proof {
            assert(self.core_rules@.skip(0) =~= self.core_rules@);
        }
        while i < ncr
            invariant
                i <= ncr,
                ncr == self.core_rules@.len(),
                root.ext.wf(),
                root.value is Root,
                root.attrs@.len() == 0,
                root.ext.footnotes_model() == stage2.1,
                spec_core_seq(self.core_rules@, stage2.0, stage2.1) == spec_core_seq(
                    self.core_rules@.skip(i as int),
                    seq_model(root.children@),
                    stage2.1,
                ),
            decreases ncr - i,
    {
            proof {
                assert(self.core_rules@.skip(i as int)[0] == self.core_rules@[i as int]);
                assert(self.core_rules@.skip(i as int).drop_first() =~= self.core_rules@.skip(
                    i + 1,
                ));
            }
            match self.core_rules[i] {
                CoreRuleName::FootnoteCollect => {
                    let ghost before = seq_model(root.children@);
                    root = footnote_collect_run(root);
                    proof {
                        assert(seq_model(root.children@) == spec_collect_applied(
                            before,
                            stage2.1,
                        ));
                    }
                },
            }
            i = i + 1;
        }
        proof {
            assert(self.core_rules@.skip(ncr as int) =~= Seq::<CoreRuleName>::empty());
            assert(crate::node::attr_model(root.attrs@)
                =~= Seq::<(Seq<char>, Seq<char>)>::empty());
            assert(root.to_model() =~= (NodeModel {
                value: ValueModel::Root,
                attrs: Seq::empty(),
                children: spec_parse_models(*self, src@),
            }));
        }
        root
    }
}

/// Idempotent no-match, end to end: removing an inline rule whose
/// trigger marker occurs nowhere in the source (and is not the newline
/// the scanner itself inserts between joined lines) leaves the whole
/// parsed tree model unchanged — the block scan never consults the
/// inline registry, and no paragraph the scan assembles can contain the
/// absent marker.  With `lemma_render_respects_model`, the rendered
/// output is then byte-identical as well.
pub proof fn lemma_unused_rule_same_parse(
    md1: MarkdownIt,
    md2: MarkdownIt,
    i: int,
    src: Seq<char>,
)
    requires
        crate::inline::same_but_inline(md1, md2),
        0 <= i < md1.inline_rules@.len(),
        md2.inline_rules@ == md1.inline_rules@.remove(i),
        crate::inline::spec_marker(md1.inline_rules@[i]) != '\n',
        crate::block::char_free(src, crate::inline::spec_marker(md1.inline_rules@[i])),
    ensures
        spec_parse_models(md1, src) == spec_parse_models(md2, src),
{
    let c = crate::inline::spec_marker(md1.inline_rules@[i]);
    let views = spec_lines(src);
    crate::block::lemma_char_free_lines(src, c, 0);
    crate::block::lemma_block_ignores_inline_rules(md1, md2, views, 0, None::<FmModel>);
    crate::block::lemma_block_paragraphs_free(md1, views, 0, None::<FmModel>, c);
    let (b, fm1) = spec_block(md1, views, 0, None::<FmModel>);
    crate::inline::lemma_unused_rule_same_pass(md1, md2, i, b, fm1);
}

/// What one whole-document pass makes of the root's children.
pub open spec fn spec_core_pass(
    r: CoreRuleName,
    models: Seq<NodeModel>,
    fm: Option<FmModel>,
) -> Seq<NodeModel> {
    match r {
        CoreRuleName::FootnoteCollect => spec_collect_applied(models, fm),
    }
}

/// The registered whole-document passes applied in registry order.
pub open spec fn spec_core_seq(
    rules: Seq<CoreRuleName>,
    models: Seq<NodeModel>,
    fm: Option<FmModel>,
) -> Seq<NodeModel>
    decreases rules.len(),
{
    if rules.len() == 0 {
        models
    } else {
        spec_core_seq(rules.drop_first(), spec_core_pass(rules[0], models, fm), fm)
    }
}

/// The whole parsing pipeline as one function of the source and the
/// configuration: the source is split into lines, the block scan builds
/// the top-level node models, the inline pass tokenizes each paragraph,
/// and the registered whole-document passes run in registry order.
pub open spec fn spec_parse_models(md: MarkdownIt, src: Seq<char>) -> Seq<NodeModel> {
    let views = spec_lines(src);
    let (b, fm1) = spec_block(md, views, 0, None::<FmModel>);
    let (c, fm2) = spec_pass_seq(md, b, fm1);
    spec_core_seq(md.core_rules@, c, fm2)
}

} // verus!
