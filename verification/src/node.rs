//! The syntax-tree node model: a tree node owning an ordered list of
//! children, an ordered list of output attributes, an optional source span,
//! a per-node extension-state store, and a payload that determines how the
//! node renders.
use crate::citation::CitationNode;
use crate::contact_info::ContactInfo;
use crate::extset::ExtSet;
use crate::fence::CodeFence;
use crate::footnote_collect::FootnotesContainerNode;
use crate::footnote_definitions::FootnoteDefinition;
use crate::footnote_inline::InlineFootnote;
use crate::footnote_references::FootnoteReference;
use crate::front_matter::FrontMatter;
use crate::inkjet::InkjetCodeFence;
use crate::math_display::DisplayMath;
use crate::math_inline::InlineMath;
use crate::nl2br::InlineNL2BR;
use vstd::prelude::*;

verus! {

/// Plain character data emitted with escaping.
pub struct Text {
    pub content: String,
}

/// The document root; its node's extension store is the root-scoped state.
pub struct Root {
}

/// The fallback block: consecutive non-blank lines that no block rule
/// claimed.  `raw` holds the joined source text until the inline pass
/// replaces it with parsed children.
pub struct Paragraph {
    pub raw: String,
}

/// An inert stand-in left where a rewrite pass detached a node; it renders
/// nothing and is pruned before the tree is handed back.
pub struct Placeholder {
}

/// The payload of a node: which kind of construct it is and the data that
/// its rendering needs.
pub enum NodeValue {
    Root(Root),
    Text(Text),
    Paragraph(Paragraph),
    CodeFence(CodeFence),
    InkjetCodeFence(InkjetCodeFence),
    FrontMatter(FrontMatter),
    FootnoteReference(FootnoteReference),
    FootnoteDefinition(FootnoteDefinition),
    InlineFootnote(InlineFootnote),
    FootnotesContainer(FootnotesContainerNode),
    ContactInfo(ContactInfo),
    Citation(CitationNode),
    Nl2Br(InlineNL2BR),
    MathInline(InlineMath),
    MathDisplay(DisplayMath),
    Placeholder(Placeholder),
}

/// The views of an attribute list.
pub open spec fn attr_model(attrs: Seq<(String, String)>) -> Seq<(Seq<char>, Seq<char>)> {
    attrs.map_values(|p: (String, String)| (p.0@, p.1@))
}

/// The mathematical content of a payload: the same variant with every
/// string replaced by its character sequence.
#[verifier::ext_equal]
pub enum ValueModel {
    Root,
    Text(Seq<char>),
    Paragraph(Seq<char>),
    CodeFence { info: Seq<char>, marker: char, marker_len: usize, content: Seq<char>, lang_prefix: Seq<char> },
    InkjetFence { info: Seq<char>, marker: char, marker_len: usize, content: Seq<char>, use_pygments: bool },
    FrontMatter(Seq<char>),
    FootnoteReference { label: Option<Seq<char>>, ref_id: usize, def_id: usize },
    FootnoteDefinition { label: Option<Seq<char>>, def_id: Option<usize>, inline: bool },
    InlineFootnote,
    FootnotesContainer,
    ContactInfo { content: Seq<char>, prefix: Seq<char>, email: bool },
    Citation { index: usize, title: Seq<char>, source: Seq<char>, passage: Seq<char>, md_offset: usize, new_tab: bool },
    Nl2Br,
    MathInline(Seq<char>),
    MathDisplay(Seq<char>),
    Placeholder,
}

/// The mathematical content of one payload value.
pub open spec fn value_model(v: NodeValue) -> ValueModel {
    match v {
        NodeValue::Root(_) => ValueModel::Root,
        NodeValue::Text(t) => ValueModel::Text(t.content@),
        NodeValue::Paragraph(p) => ValueModel::Paragraph(p.raw@),
        NodeValue::CodeFence(f) => ValueModel::CodeFence {
            info: f.info@,
            marker: f.marker,
            marker_len: f.marker_len,
            content: f.content@,
            lang_prefix: f.lang_prefix@,
        },
        NodeValue::InkjetCodeFence(f) => ValueModel::InkjetFence {
            info: f.info@,
            marker: f.marker,
            marker_len: f.marker_len,
            content: f.content@,
            use_pygments: f.use_pygments,
        },
        NodeValue::FrontMatter(f) => ValueModel::FrontMatter(f.content@),
        NodeValue::FootnoteReference(r) => ValueModel::FootnoteReference {
            label: match r.label {
                Some(l) => Some(l@),
                None => None,
            },
            ref_id: r.ref_id,
            def_id: r.def_id,
        },
        NodeValue::FootnoteDefinition(d) => ValueModel::FootnoteDefinition {
            label: match d.label {
                Some(l) => Some(l@),
                None => None,
            },
            def_id: d.def_id,
            inline: d.inline,
        },
        NodeValue::InlineFootnote(_) => ValueModel::InlineFootnote,
        NodeValue::FootnotesContainer(_) => ValueModel::FootnotesContainer,
        NodeValue::ContactInfo(c) => ValueModel::ContactInfo {
            content: c.content@,
            prefix: c.prefix@,
            email: c.info_type is Email,
        },
        NodeValue::Citation(c) => ValueModel::Citation {
            index: c.citation.index,
            title: c.citation.title@,
            source: c.citation.source@,
            passage: c.citation.passage@,
            md_offset: c.citation.md_offset,
            new_tab: c.open_link_in_new_tab,
        },
        NodeValue::Nl2Br(_) => ValueModel::Nl2Br,
        NodeValue::MathInline(m) => ValueModel::MathInline(m.math@),
        NodeValue::MathDisplay(m) => ValueModel::MathDisplay(m.math@),
        NodeValue::Placeholder(_) => ValueModel::Placeholder,
    }
}

/// The mathematical content of a node: payload, attributes and children,
/// with every string replaced by its character sequence.
#[verifier::ext_equal]
pub struct NodeModel {
    pub value: ValueModel,
    pub attrs: Seq<(Seq<char>, Seq<char>)>,
    pub children: Seq<NodeModel>,
}

/// A tree node.  Attribute order is significant and duplicates are kept.
pub struct Node {
    pub value: NodeValue,
    pub attrs: Vec<(String, String)>,
    pub children: Vec<Node>,
    pub srcmap: Option<(usize, usize)>,
    pub ext: ExtSet,
}

/// A leaf node model: a payload with no attributes and no children.
pub open spec fn leaf_model(v: ValueModel) -> NodeModel {
    NodeModel { value: v, attrs: Seq::empty(), children: Seq::empty() }
}

/// The mathematical content of a node list, in order.
pub open spec fn seq_model(nodes: Seq<Node>) -> Seq<NodeModel>
    decreases nodes, 0int,
{
    if nodes.len() == 0 {
        Seq::empty()
    } else {
        seq![nodes[0].to_model()] + seq_model(nodes.drop_first())
    }
}

pub proof fn lemma_seq_model_push(nodes: Seq<Node>, n: Node)
    ensures
        seq_model(nodes.push(n)) == seq_model(nodes).push(n.to_model()),
    decreases nodes.len(),
{
    if nodes.len() == 0 {
        assert(nodes.push(n)[0] == n);
        assert(nodes.push(n).drop_first() =~= Seq::<Node>::empty());
        assert(seq_model(Seq::<Node>::empty()) =~= Seq::<NodeModel>::empty());
        assert(seq_model(nodes.push(n)) =~= seq_model(nodes).push(n.to_model()));
    } else {
        lemma_seq_model_push(nodes.drop_first(), n);
        assert(nodes.push(n)[0] == nodes[0]);
        assert(nodes.push(n).drop_first() =~= nodes.drop_first().push(n));
        assert(seq_model(nodes.push(n)) =~= seq_model(nodes).push(n.to_model()));
    }
}

pub proof fn lemma_seq_model_append(a: Seq<Node>, b: Seq<Node>)
    ensures
        seq_model(a + b) == seq_model(a) + seq_model(b),
    decreases a.len(),
{
    if a.len() == 0 {
        assert(a + b =~= b);
        assert(seq_model(Seq::<Node>::empty()) =~= Seq::<NodeModel>::empty());
        assert(seq_model(a) + seq_model(b) =~= seq_model(b));
    } else {
        lemma_seq_model_append(a.drop_first(), b);
        assert((a + b)[0] == a[0]);
        assert((a + b).drop_first() =~= a.drop_first() + b);
        assert(seq_model(a + b) =~= seq_model(a) + seq_model(b));
    }
}

pub proof fn lemma_seq_model_index(nodes: Seq<Node>, i: int)
    requires
        0 <= i < nodes.len(),
    ensures
        seq_model(nodes).len() == nodes.len(),
        seq_model(nodes)[i] == nodes[i].to_model(),
    decreases i,
{
    lemma_seq_model_len(nodes);
    if i > 0 {
        lemma_seq_model_index(nodes.drop_first(), i - 1);
    }
}

pub proof fn lemma_seq_model_len(nodes: Seq<Node>)
    ensures
        seq_model(nodes).len() == nodes.len(),
    decreases nodes.len(),
{
    if nodes.len() > 0 {
        lemma_seq_model_len(nodes.drop_first());
    }
}

pub proof fn lemma_seq_model_skip(nodes: Seq<Node>, k: int)
    requires
        0 <= k <= nodes.len(),
    ensures
        seq_model(nodes.skip(k)) == seq_model(nodes).skip(k),
    decreases nodes.len() - k,
{
    lemma_seq_model_len(nodes);
    if k < nodes.len() {
        lemma_seq_model_skip(nodes, k + 1);
        assert(nodes.skip(k)[0] == nodes[k]);
        assert(nodes.skip(k).drop_first() =~= nodes.skip(k + 1));
        lemma_seq_model_index(nodes, k);
        assert(seq_model(nodes.skip(k)) =~= seq![nodes[k].to_model()] + seq_model(nodes).skip(
            k + 1,
        ));
        assert(seq_model(nodes).skip(k) =~= seq![seq_model(nodes)[k]] + seq_model(nodes).skip(
            k + 1,
        ));
    } else {
        assert(nodes.skip(k) =~= Seq::<Node>::empty());
        assert(seq_model(Seq::<Node>::empty()) =~= Seq::<NodeModel>::empty());
        assert(seq_model(nodes).skip(k) =~= Seq::<NodeModel>::empty());
    }
}

impl Node {
    /// The mathematical content of this node's subtree.
    pub open spec fn to_model(self) -> NodeModel
        decreases self, 1int,
    {
        NodeModel {
            value: value_model(self.value),
            attrs: attr_model(self.attrs@),
            children: seq_model(self.children@),
        }
    }

    /// A leaf node with the given payload and no attributes, children,
    /// source span, or extension state.
    pub fn new(value: NodeValue) -> (n: Node)
        ensures
            n.value == value,
            n.attrs@ == Seq::<(String, String)>::empty(),
            n.children@ == Seq::<Node>::empty(),
            n.srcmap is None,
            n.ext.wf(),
            n.ext.footnotes() is None,
            n.ext.fence() is None,
    {
        Node {
            value,
            attrs: Vec::new(),
            children: Vec::new(),
            srcmap: None,
            ext: ExtSet::new(),
        }
    }

    /// Whether the payload is the front-matter variant.
    pub fn is_front_matter(&self) -> (r: bool)
        ensures
            r == (self.value is FrontMatter),
    {
        match self.value {
            NodeValue::FrontMatter(_) => true,
            _ => false,
        }
    }

    /// Whether the payload is the footnote-definition variant.
    pub fn is_footnote_definition(&self) -> (r: bool)
        ensures
            r == (self.value is FootnoteDefinition),
    {
        match self.value {
            NodeValue::FootnoteDefinition(_) => true,
            _ => false,
        }
    }

    /// The footnote-definition payload, or None when the payload is
    /// another variant (no side effect on mismatch).
    pub fn cast_footnote_definition(&self) -> (r: Option<&FootnoteDefinition>)
        ensures
            match r {
                Some(d) => self.value == NodeValue::FootnoteDefinition(*d),
                None => !(self.value is FootnoteDefinition),
            },
    {
        match &self.value {
            NodeValue::FootnoteDefinition(d) => Some(d),
            _ => None,
        }
    }

    /// The footnote-reference payload, or None when the payload is
    /// another variant (no side effect on mismatch).
    pub fn cast_footnote_reference(&self) -> (r: Option<&FootnoteReference>)
        ensures
            match r {
                Some(d) => self.value == NodeValue::FootnoteReference(*d),
                None => !(self.value is FootnoteReference),
            },
    {
        match &self.value {
            NodeValue::FootnoteReference(d) => Some(d),
            _ => None,
        }
    }
}

/// Copy of an attribute list, pair by pair.
pub fn clone_attrs(attrs: &Vec<(String, String)>) -> (r: Vec<(String, String)>)
    ensures
        r@ == attrs@,
{
    let mut r: Vec<(String, String)> = Vec::new();
    let mut i: usize = 0;
    let n = attrs.len();
    while i < n
        invariant
            i <= n,
            n == attrs@.len(),
            r@ == attrs@.subrange(0, i as int),
        decreases n - i,
    {
        let name = attrs[i].0.clone();
        let value = attrs[i].1.clone();
        r.push((name, value));
        proof {
            assert(r@ =~= attrs@.subrange(0, i + 1));
        }
        i = i + 1;
    }
    proof {
        assert(attrs@.subrange(0, n as int) =~= attrs@);
    }
    r
}

} // verus!
