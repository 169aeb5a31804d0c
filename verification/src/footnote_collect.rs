//! The whole-document pass that collects footnote definitions.
//!
//! Every definition node is detached from its place in the tree.  A
//! definition is kept if and only if its definition id has at least one
//! recorded reference; definitions with zero references are silently
//! dropped.  The kept definitions are appended, in document encounter
//! order and independent of rule registration order, inside one container
//! appended as the last child of the root; a definition synthesized from
//! an inline footnote has its children wrapped in a paragraph first, so
//! both kinds render uniformly.  A document whose root-scoped state holds
//! no footnote map is left untouched.
use crate::extset::ExtSet;
use crate::footnote::model_refs_of;
use crate::footnote::FmModel;
use crate::footnote::FootnoteMap;
use crate::node::attr_model;
use crate::node::seq_model;
use crate::node::value_model;
use crate::node::NodeModel;
use crate::node::ValueModel;
use crate::node::Node;
use crate::node::NodeValue;
use crate::node::Paragraph;
use crate::parser::CoreRuleName;
use crate::parser::MarkdownIt;
use vstd::prelude::*;
use vstd::string::*;

verus! {

/// AST node for the container that holds the collected definitions.
pub struct FootnotesContainerNode {
}

/// A definition node that the pass keeps: it carries a definition id and
/// that id has at least one recorded reference.
pub open spec fn spec_collectible(c: Node, m: FootnoteMap) -> bool {
    c.value matches NodeValue::FootnoteDefinition(d) && (d.def_id matches Some(id)
        && m.refs_of(id).len() > 0)
}

/// The definition nodes collected from a node list, in encounter order:
/// a definition child is taken (or dropped) whole, any other child is
/// descended into.
pub open spec fn spec_collect_nodes(nodes: Seq<Node>, m: FootnoteMap) -> Seq<Node>
    decreases nodes, 0int,
{
    if nodes.len() == 0 {
        Seq::empty()
    } else if nodes[0].value is FootnoteDefinition {
        (if spec_collectible(nodes[0], m) {
            seq![nodes[0]]
        } else {
            Seq::empty()
        }) + spec_collect_nodes(nodes.drop_first(), m)
    } else {
        spec_collect_node(nodes[0], m) + spec_collect_nodes(nodes.drop_first(), m)
    }
}

/// The definition nodes collected from one node's subtree.
pub open spec fn spec_collect_node(node: Node, m: FootnoteMap) -> Seq<Node>
    decreases node, 1int,
{
    spec_collect_nodes(node.children@, m)
}

/// How a collected definition appears in the container: an inline-flagged
/// definition has its children wrapped in one synthesized paragraph, any
/// other definition is kept as it is.
pub open spec fn spec_wrapped(w: Node, c: Node) -> bool {
    if c.value matches NodeValue::FootnoteDefinition(d) && d.inline {
        &&& w.value == c.value
        &&& w.attrs@ == c.attrs@
        &&& w.srcmap == c.srcmap
        &&& w.children@.len() == 1
        &&& (w.children@[0].value matches NodeValue::Paragraph(p) && p.raw@.len() == 0)
        &&& w.children@[0].children@ == c.children@
    } else {
        w == c
    }
}

/// No footnote definition stands anywhere in this subtree.
pub open spec fn spec_no_defs(node: Node) -> bool
    decreases node,
{
    &&& !(node.value is FootnoteDefinition)
    &&& forall|i: int|
        0 <= i < node.children@.len() ==> spec_no_defs(#[trigger] node.children@[i])
}

/// A definition node model the pass keeps: it carries a definition id
/// with at least one recorded reference.
pub open spec fn spec_collectible_m(nm: NodeModel, m: FmModel) -> bool {
    nm.value matches ValueModel::FootnoteDefinition { label, def_id, inline } && (def_id
        matches Some(id) && model_refs_of(m.cites, id).len() > 0)
}

/// How a collected definition model appears in the container: an
/// inline-flagged definition has its children wrapped in one synthesized
/// paragraph, any other definition is kept as it is.
pub open spec fn spec_wrap_m(nm: NodeModel) -> NodeModel {
    if nm.value matches ValueModel::FootnoteDefinition { label, def_id, inline: true } {
        NodeModel {
            value: nm.value,
            attrs: nm.attrs,
            children: seq![
                NodeModel {
                    value: ValueModel::Paragraph(Seq::empty()),
                    attrs: Seq::empty(),
                    children: nm.children,
                },
            ],
        }
    } else {
        nm
    }
}

/// A node-model list with every definition detached, at every depth; the
/// other nodes keep their identity and order.
pub open spec fn spec_strip(models: Seq<NodeModel>) -> Seq<NodeModel>
    decreases models, 0int,
{
    if models.len() == 0 {
        Seq::empty()
    } else if models[0].value is FootnoteDefinition {
        spec_strip(models.drop_first())
    } else {
        seq![spec_strip_node(models[0])] + spec_strip(models.drop_first())
    }
}

/// One non-definition node with the definitions stripped from its
/// subtree.
pub open spec fn spec_strip_node(nm: NodeModel) -> NodeModel
    decreases nm, 1int,
{
    NodeModel { value: nm.value, attrs: nm.attrs, children: spec_strip(nm.children) }
}

/// The kept definition models gathered from a node-model list, wrapped
/// where inline, in encounter order.
pub open spec fn spec_gather(models: Seq<NodeModel>, m: FmModel) -> Seq<NodeModel>
    decreases models, 0int,
{
    if models.len() == 0 {
        Seq::empty()
    } else if models[0].value is FootnoteDefinition {
        (if spec_collectible_m(models[0], m) {
            seq![spec_wrap_m(models[0])]
        } else {
            Seq::empty()
        }) + spec_gather(models.drop_first(), m)
    } else {
        spec_gather_node(models[0], m) + spec_gather(models.drop_first(), m)
    }
}

/// The kept definition models gathered from one node's subtree.
pub open spec fn spec_gather_node(nm: NodeModel, m: FmModel) -> Seq<NodeModel>
    decreases nm, 1int,
{
    spec_gather(nm.children, m)
}

proof fn lemma_strip_snoc(s: Seq<NodeModel>, x: NodeModel)
    ensures
        spec_strip(s.push(x)) == spec_strip(s) + (if x.value is FootnoteDefinition {
            Seq::<NodeModel>::empty()
        } else {
            seq![spec_strip_node(x)]
        }),
    decreases s.len(),
{
    if s.len() == 0 {
        assert(s.push(x)[0] == x);
        assert(s.push(x).drop_first() =~= Seq::<NodeModel>::empty());
        assert(spec_strip(Seq::<NodeModel>::empty()) =~= Seq::<NodeModel>::empty());
        assert(spec_strip(s.push(x)) =~= spec_strip(s) + (if x.value is FootnoteDefinition {
            Seq::<NodeModel>::empty()
        } else {
            seq![spec_strip_node(x)]
        }));
    } else {
        lemma_strip_snoc(s.drop_first(), x);
        assert(s.push(x)[0] == s[0]);
        assert(s.push(x).drop_first() =~= s.drop_first().push(x));
        assert(spec_strip(s.push(x)) =~= spec_strip(s) + (if x.value is FootnoteDefinition {
            Seq::<NodeModel>::empty()
        } else {
            seq![spec_strip_node(x)]
        }));
    }
}

proof fn lemma_gather_snoc(s: Seq<NodeModel>, x: NodeModel, m: FmModel)
    ensures
        spec_gather(s.push(x), m) == spec_gather(s, m) + (if x.value is FootnoteDefinition {
            if spec_collectible_m(x, m) {
                seq![spec_wrap_m(x)]
            } else {
                Seq::<NodeModel>::empty()
            }
        } else {
            spec_gather_node(x, m)
        }),
    decreases s.len(),
{
    if s.len() == 0 {
        assert(s.push(x)[0] == x);
        assert(s.push(x).drop_first() =~= Seq::<NodeModel>::empty());
        assert(spec_gather(Seq::<NodeModel>::empty(), m) =~= Seq::<NodeModel>::empty());
        assert(spec_gather(s.push(x), m) =~= spec_gather(s, m) + (
        if x.value is FootnoteDefinition {
            if spec_collectible_m(x, m) {
                seq![spec_wrap_m(x)]
            } else {
                Seq::<NodeModel>::empty()
            }
        } else {
            spec_gather_node(x, m)
        }));
    } else {
        lemma_gather_snoc(s.drop_first(), x, m);
        assert(s.push(x)[0] == s[0]);
        assert(s.push(x).drop_first() =~= s.drop_first().push(x));
        assert(spec_gather(s.push(x), m) =~= spec_gather(s, m) + (
        if x.value is FootnoteDefinition {
            if spec_collectible_m(x, m) {
                seq![spec_wrap_m(x)]
            } else {
                Seq::<NodeModel>::empty()
            }
        } else {
            spec_gather_node(x, m)
        }));
    }
}

proof fn lemma_collect_nodes_append(a: Seq<Node>, b: Seq<Node>, m: FootnoteMap)
    ensures
        spec_collect_nodes(a + b, m) == spec_collect_nodes(a, m) + spec_collect_nodes(b, m),
    decreases a.len(),
{
    if a.len() == 0 {
        assert(a + b =~= b);
        assert(spec_collect_nodes(a, m) + spec_collect_nodes(b, m) =~= spec_collect_nodes(b, m));
    } else {
        lemma_collect_nodes_append(a.drop_first(), b, m);
        assert((a + b)[0] == a[0]);
        assert((a + b).drop_first() =~= a.drop_first() + b);
        assert(spec_collect_nodes(a + b, m) =~= spec_collect_nodes(a, m) + spec_collect_nodes(
            b,
            m,
        ));
    }
}

proof fn lemma_collect_singleton(c: Node, m: FootnoteMap)
    ensures
        spec_collect_nodes(seq![c], m) == if c.value is FootnoteDefinition {
            if spec_collectible(c, m) {
                seq![c]
            } else {
                Seq::<Node>::empty()
            }
        } else {
            spec_collect_node(c, m)
        },
{
    assert(seq![c].drop_first() =~= Seq::<Node>::empty());
    assert(spec_collect_nodes(Seq::<Node>::empty(), m) == Seq::<Node>::empty());
    if c.value is FootnoteDefinition {
        if spec_collectible(c, m) {
            assert(spec_collect_nodes(seq![c], m) =~= seq![c]);
        } else {
            assert(spec_collect_nodes(seq![c], m) =~= Seq::<Node>::empty());
        }
    } else {
        assert(spec_collect_nodes(seq![c], m) =~= spec_collect_node(c, m));
    }
}

/// Rebuilds one subtree with every definition detached, routing the kept
/// definitions (wrapped where inline) into the accumulator in encounter
/// order.
#[verifier::loop_isolation(false)]
fn collect_node(node: Node, m: &FootnoteMap, defs: &mut Vec<Node>) -> (r: Node)
    requires
        !(node.value is FootnoteDefinition),
    ensures
        final(defs)@.len() == old(defs)@.len() + spec_collect_node(node, *m).len(),
        forall|i: int| 0 <= i < old(defs)@.len() ==> final(defs)@[i] == old(defs)@[i],
        forall|i: int|
            0 <= i < spec_collect_node(node, *m).len() ==> spec_wrapped(
                final(defs)@[old(defs)@.len() + i],
                spec_collect_node(node, *m)[i],
            ),
        spec_no_defs(r),
        r.value == node.value,
        r.attrs@ == node.attrs@,
        r.srcmap == node.srcmap,
        r.ext == node.ext,
        r.to_model() == spec_strip_node(node.to_model()),
        seq_model(final(defs)@) == seq_model(old(defs)@) + spec_gather(
            seq_model(node.children@),
            m.model(),
        ),
    decreases node,
{
    let ghost n0 = node;
    let Node { value, attrs, children, srcmap, ext } = node;
    let mut rest = children;
    let mut new_children: Vec<Node> = Vec::new();
    let ghost cm = seq_model(n0.children@);
    let ghost mut k: int = 0;
    proof {
        assert(n0.children@.take(0) =~= Seq::<Node>::empty());
        assert(n0.children@.skip(0) =~= n0.children@);
        crate::node::lemma_seq_model_len(n0.children@);
        assert(cm.take(0) =~= Seq::<NodeModel>::empty());
        assert(spec_strip(cm.take(0)) =~= Seq::<NodeModel>::empty());
        assert(spec_gather(cm.take(0), m.model()) =~= Seq::<NodeModel>::empty());
        assert(seq_model(new_children@) =~= Seq::<NodeModel>::empty());
        assert(seq_model(defs@) =~= seq_model(defs@) + spec_gather(cm.take(0), m.model()));
        m.lemma_model_agrees();
    }
    while rest.len() > 0
        invariant
            0 <= k <= n0.children@.len(),
            rest@ == n0.children@.skip(k),
            defs@.len() == old(defs)@.len() + spec_collect_nodes(
                n0.children@.take(k),
                *m,
            ).len(),
            forall|i: int| 0 <= i < old(defs)@.len() ==> defs@[i] == old(defs)@[i],
            forall|i: int|
                0 <= i < spec_collect_nodes(n0.children@.take(k), *m).len() ==> spec_wrapped(
                    defs@[old(defs)@.len() + i],
                    spec_collect_nodes(n0.children@.take(k), *m)[i],
                ),
            forall|i: int|
                0 <= i < new_children@.len() ==> spec_no_defs(#[trigger] new_children@[i]),
            cm == seq_model(n0.children@),
            cm.len() == n0.children@.len(),
            seq_model(new_children@) == spec_strip(cm.take(k)),
            seq_model(defs@) == seq_model(old(defs)@) + spec_gather(cm.take(k), m.model()),
        decreases rest@.len(),
    {
        proof {
            assert(rest@[0] == n0.children@[k]);
        }
        let c = rest.remove(0);
        let ghost prefix = spec_collect_nodes(n0.children@.take(k), *m);
        proof {
            assert(c == n0.children@[k]);
            assert(n0.children@.take(k + 1) =~= n0.children@.take(k) + seq![c]);
            lemma_collect_nodes_append(n0.children@.take(k), seq![c], *m);
            lemma_collect_singleton(c, *m);
            assert(rest@ =~= n0.children@.skip(k + 1));
            crate::node::lemma_seq_model_index(n0.children@, k);
            assert(cm[k] == c.to_model());
            assert(cm.take(k + 1) =~= cm.take(k).push(cm[k]));
            lemma_strip_snoc(cm.take(k), cm[k]);
            lemma_gather_snoc(cm.take(k), cm[k], m.model());
        }
        if c.is_footnote_definition() {
            let (def_id_opt, is_inline) = match c.cast_footnote_definition() {
                Some(d) => (d.def_id, d.inline),
                None => (None, false),
            };
            let keep = match def_id_opt {
                Some(id) => m.referenced_by(id).len() > 0,
                None => false,
            };
            if keep {
                proof {
                    assert(spec_collectible(c, *m));
                    assert(spec_collectible_m(cm[k], m.model()));
                }
                if is_inline {
                    let ghost c0 = c;
                    let Node { value: dv, attrs: da, children: dc, srcmap: ds, ext: de } = c;
                    let mut para = Node::new(
                        NodeValue::Paragraph(Paragraph { raw: String::new() }),
                    );
                    para.children = dc;
                    let mut wrapped = Node {
                        value: dv,
                        attrs: da,
                        children: Vec::new(),
                        srcmap: ds,
                        ext: de,
                    };
                    proof {
                        crate::node::lemma_seq_model_push(wrapped.children@, para);
                    }
                    wrapped.children.push(para);
                    proof {
                        assert(spec_wrapped(wrapped, c0));
                        assert(attr_model(para.attrs@) =~= Seq::<(Seq<char>, Seq<char>)>::empty());
                        assert(para.to_model() =~= (NodeModel {
                            value: ValueModel::Paragraph(Seq::empty()),
                            attrs: Seq::empty(),
                            children: c0.to_model().children,
                        }));
                        assert(seq_model(wrapped.children@) =~= seq![para.to_model()]);
                        assert(wrapped.to_model() =~= spec_wrap_m(c0.to_model()));
                        crate::node::lemma_seq_model_push(defs@, wrapped);
                    }
                    defs.push(wrapped);
                    proof {
                        assert(seq_model(defs@) =~= seq_model(old(defs)@) + spec_gather(
                            cm.take(k + 1),
                            m.model(),
                        ));
                    }
                } else {
                    proof {
                        assert(spec_wrapped(c, c));
                        assert(spec_wrap_m(c.to_model()) == c.to_model());
                        crate::node::lemma_seq_model_push(defs@, c);
                    }
                    defs.push(c);
                    proof {
                        assert(seq_model(defs@) =~= seq_model(old(defs)@) + spec_gather(
                            cm.take(k + 1),
                            m.model(),
                        ));
                    }
                }
                proof {
                    assert(spec_collect_nodes(n0.children@.take(k + 1), *m) =~= prefix + seq![
                        n0.children@[k],
                    ]);
                }
            } else {
                proof {
                    assert(!spec_collectible(c, *m));
                    assert(spec_collect_nodes(n0.children@.take(k + 1), *m) =~= prefix);
                    assert(!spec_collectible_m(cm[k], m.model()));
                    assert(seq_model(defs@) =~= seq_model(old(defs)@) + spec_gather(
                        cm.take(k + 1),
                        m.model(),
                    ));
                }
            }
        } else {
            proof {
                assert(decreases_to!(n0 => c));
            }
            let ghost defs_before = defs@;
            let processed = collect_node(c, m, defs);
            proof {
                assert(processed.to_model() == spec_strip_node(cm[k]));
                crate::node::lemma_seq_model_push(new_children@, processed);
            }
            new_children.push(processed);
            proof {
                assert(spec_collect_nodes(n0.children@.take(k + 1), *m) =~= prefix
                    + spec_collect_node(c, *m));
                assert(seq_model(new_children@) =~= spec_strip(cm.take(k + 1)));
                assert(seq_model(defs@) =~= seq_model(old(defs)@) + spec_gather(
                    cm.take(k + 1),
                    m.model(),
                ));
            }
        }
        proof {
            k = k + 1;
        }
    }
    proof {
        assert(n0.children@.take(n0.children@.len() as int) =~= n0.children@);
        assert(cm.take(cm.len() as int) =~= cm);
    }
    let r = Node { value, attrs, children: new_children, srcmap, ext };
    proof {
        assert(spec_no_defs(r));
        assert(r.to_model() =~= spec_strip_node(n0.to_model()));
    }
    r
}

/// Runs the collection pass on the document root: a no-op when no
/// footnote map was ever attached; otherwise every definition is detached
/// and the referenced ones come back, in encounter order, inside one
/// container appended as the last child of the root.
pub fn footnote_collect_run(root: Node) -> (r: Node)
    requires
        root.ext.wf(),
        !(root.value is FootnoteDefinition),
    ensures
        r.ext.wf(),
        r.value == root.value,
        r.attrs@ == root.attrs@,
        root.ext.footnotes() is None ==> r == root,
        match root.ext.footnotes() {
            Some(m) => {
                let collected = spec_collect_nodes(root.children@, m);
                &&& r.ext.footnotes() == Some(m)
                &&& r.ext.fence() == root.ext.fence()
                &&& if collected.len() == 0 {
                    forall|i: int|
                        0 <= i < r.children@.len() ==> spec_no_defs(#[trigger] r.children@[i])
                } else {
                    &&& r.children@.len() >= 1
                    &&& r.children@.last().value is FootnotesContainer
                    &&& r.children@.last().children@.len() == collected.len()
                    &&& (forall|i: int|
                        0 <= i < collected.len() ==> spec_wrapped(
                            #[trigger] r.children@.last().children@[i],
                            collected[i],
                        ))
                    &&& (forall|i: int|
                        0 <= i < r.children@.len() - 1 ==> spec_no_defs(
                            #[trigger] r.children@[i],
                        ))
                }
            },
            None => true,
        },
        seq_model(r.children@) == spec_collect_applied(
            seq_model(root.children@),
            root.ext.footnotes_model(),
        ),
{
    let mut root = root;
    let taken = root.ext.take_footnotes();
    let m = match taken {
        None => {
            return root;
        },
        Some(m) => m,
    };
    let mut defs: Vec<Node> = Vec::new();
    let ghost root_models = seq_model(root.children@);
    let mut processed = collect_node(root, &m, &mut defs);
    proof {
        assert(seq_model(Seq::<Node>::empty()) =~= Seq::<NodeModel>::empty());
        assert(seq_model(defs@) =~= spec_gather(root_models, m.model()));
        crate::node::lemma_seq_model_len(defs@);
    }
    if defs.len() > 0 {
        let mut container = Node::new(NodeValue::FootnotesContainer(FootnotesContainerNode {  }));
        container.children = defs;
        proof {
            assert(attr_model(container.attrs@) =~= Seq::<(Seq<char>, Seq<char>)>::empty());
            assert(container.to_model() =~= (NodeModel {
                value: ValueModel::FootnotesContainer,
                attrs: Seq::empty(),
                children: spec_gather(root_models, m.model()),
            }));
            crate::node::lemma_seq_model_push(processed.children@, container);
        }
        processed.children.push(container);
        proof {
            assert(seq_model(processed.children@) =~= spec_collect_applied(
                root_models,
                Some(m.model()),
            ));
        }
    } else {
        proof {
            assert(spec_gather(root_models, m.model()).len() == 0);
            assert(seq_model(processed.children@) =~= spec_collect_applied(
                root_models,
                Some(m.model()),
            ));
        }
    }
    processed.ext.insert_footnotes(m);
    processed
}

/// What the collection pass makes of the root's children: with no
/// footnote map the list is untouched; otherwise every definition is
/// detached at every depth, the other nodes keep identity and order, and
/// the kept definitions come back, wrapped where inline and in encounter
/// order, inside one container appended last (appended only when at least
/// one definition was kept).
pub open spec fn spec_collect_applied(
    models: Seq<NodeModel>,
    fm: Option<FmModel>,
) -> Seq<NodeModel> {
    match fm {
        None => models,
        Some(m) => {
            let g = spec_gather(models, m);
            spec_strip(models) + (if g.len() > 0 {
                seq![
                    NodeModel {
                        value: ValueModel::FootnotesContainer,
                        attrs: Seq::empty(),
                        children: g,
                    },
                ]
            } else {
                Seq::empty()
            })
        },
    }
}

/// Every node the pass collects is a definition with at least one
/// recorded reference: definitions nobody cites never reach the output
/// container.
pub proof fn lemma_collected_are_referenced(nodes: Seq<Node>, m: FootnoteMap)
    ensures
        forall|i: int|
            0 <= i < spec_collect_nodes(nodes, m).len() ==> spec_collectible(
                #[trigger] spec_collect_nodes(nodes, m)[i],
                m,
            ),
    decreases nodes, 0int,
{
    if nodes.len() > 0 {
        let whole = spec_collect_nodes(nodes, m);
        let rest = spec_collect_nodes(nodes.drop_first(), m);
        lemma_collected_are_referenced(nodes.drop_first(), m);
        if nodes[0].value is FootnoteDefinition {
            let head: Seq<Node> = if spec_collectible(nodes[0], m) {
                seq![nodes[0]]
            } else {
                Seq::empty()
            };
            assert forall|i: int| 0 <= i < whole.len() implies spec_collectible(
                #[trigger] whole[i],
                m,
            ) by {
                if i < head.len() {
                    assert(whole[i] == nodes[0]);
                } else {
                    assert(whole[i] == rest[i - head.len()]);
                }
            }
        } else {
            let head = spec_collect_node(nodes[0], m);
            lemma_collected_are_referenced_node(nodes[0], m);
            assert forall|i: int| 0 <= i < whole.len() implies spec_collectible(
                #[trigger] whole[i],
                m,
            ) by {
                if i < head.len() {
                    assert(whole[i] == head[i]);
                } else {
                    assert(whole[i] == rest[i - head.len()]);
                }
            }
        }
    }
}

pub proof fn lemma_collected_are_referenced_node(node: Node, m: FootnoteMap)
    ensures
        forall|i: int|
            0 <= i < spec_collect_node(node, m).len() ==> spec_collectible(
                #[trigger] spec_collect_node(node, m)[i],
                m,
            ),
    decreases node, 1int,
{
    lemma_collected_are_referenced(node.children@, m);
    assert(spec_collect_node(node, m) == spec_collect_nodes(node.children@, m));
    assert forall|i: int| 0 <= i < spec_collect_node(node, m).len() implies spec_collectible(
        #[trigger] spec_collect_node(node, m)[i],
        m,
    ) by {
        assert(spec_collect_node(node, m)[i] == spec_collect_nodes(node.children@, m)[i]);
    }
}

/// Registers the collection pass.
pub fn add(md: &mut MarkdownIt)
    ensures
        final(md).core_rules@ == old(md).core_rules@.push(CoreRuleName::FootnoteCollect),
        final(md).block_rules@ == old(md).block_rules@,
        final(md).inline_rules@ == old(md).inline_rules@,
        final(md).ext == old(md).ext,
{
    md.add_core_rule(CoreRuleName::FootnoteCollect);
}

} // verus!
