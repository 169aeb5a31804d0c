//! Inline (anonymous) footnotes: `^[note text]`.
//!
//! An inline footnote synthesizes a definition node and a reference node
//! in one step, sharing a freshly allocated id pair; the body text is
//! tokenized as the definition's children by re-invoking the inline
//! tokenizer on the narrowed span.
use crate::extset::ExtSet;
use crate::footnote::fm_empty;
use crate::footnote::spec_add_inline;
use crate::footnote::FmModel;
use crate::footnote::FootnoteMap;
use crate::inline::skip_token;
use crate::inline::spec_close_pos;
use crate::inline::spec_skip_len;
use crate::inline::lemma_close_pos_range;
use crate::inline::spec_tok;
use crate::node::attr_model;
use crate::node::leaf_model;
use crate::node::seq_model;
use crate::node::NodeModel;
use crate::node::ValueModel;
use crate::footnote_definitions::FootnoteDefinition;
use crate::footnote_references::FootnoteReference;
use crate::inline::tokenize;
use crate::node::Node;
use crate::node::NodeValue;
use crate::parser::InlineRuleName;
use crate::parser::MarkdownIt;
use vstd::prelude::*;
use vstd::string::*;

verus! {

/// AST node wrapping the definition/reference pair synthesized from an
/// inline footnote; it renders as a plain pass-through to its children.
pub struct InlineFootnote {
}

/// The position of the closing `]` of an inline footnote at `pos`, if
/// the span opens with `^[` and a closing bracket is reachable before
/// `pos_max` by the engine's whole-token forward scan.
pub open spec fn spec_inline_footnote_end(
    md: MarkdownIt,
    s: Seq<char>,
    pos: int,
    pos_max: int,
    fm: Option<FmModel>,
) -> Option<int> {
    if pos + 2 <= pos_max <= s.len() && s[pos] == '^' && s[pos + 1] == '[' {
        spec_close_pos(md, s, pos + 3, pos_max, fm)
    } else {
        None
    }
}

/// Finds the closing `]` by delegating low-level forward scanning to the
/// engine: each step skips a whole token (the span the first matching
/// registered rule would consume, a backslash escape, or one character),
/// so a `]` inside a nested construct does not close the note.
#[verifier::loop_isolation(false)]
pub(crate) fn find_close(md: &MarkdownIt, src: &str, start: usize, pos_max: usize, ext: &ExtSet) -> (r:
    Option<usize>)
    requires
        start <= pos_max + 2,
        pos_max <= src@.len(),
    ensures
        match r {
            Some(e) => spec_close_pos(*md, src@, start as int, pos_max as int, ext.footnotes_model())
                == Some(e as int) && start <= e < pos_max,
            None => spec_close_pos(*md, src@, start as int, pos_max as int, ext.footnotes_model())
                is None,
        },
    decreases pos_max - start, 4int,
{
    let mut i = start;
    while i < pos_max
        invariant
            pos_max <= src@.len(),
            spec_close_pos(*md, src@, start as int, pos_max as int, ext.footnotes_model())
                == spec_close_pos(*md, src@, i as int, pos_max as int, ext.footnotes_model()),
            start <= i,
        decreases pos_max - i,
    {
        let c = src.get_char(i);
        if c == ']' {
            proof {
                lemma_close_pos_range(
                    *md,
                    src@,
                    start as int,
                    pos_max as int,
                    ext.footnotes_model(),
                );
            }
            return Some(i);
        }
        let sk = skip_token(md, src, i, pos_max, ext);
        i = i + sk;
    }
    None
}

/// Matches `^[body]` at the current position: allocates a fresh
/// definition/reference id pair atomically, tokenizes the body as the
/// children of a synthesized inline-flagged definition node, and wraps
/// the definition and reference in one pass-through node.
pub fn inline_footnote_run(
    md: &MarkdownIt,
    src: &str,
    pos: usize,
    pos_max: usize,
    ext: &mut ExtSet,
) -> (r: Option<(Node, usize)>)
    requires
        pos < pos_max <= src@.len(),
        old(ext).wf(),
    ensures
        final(ext).wf(),
        final(ext).fence() == old(ext).fence(),
        spec_inline_footnote_end(
            *md,
            src@,
            pos as int,
            pos_max as int,
            old(ext).footnotes_model(),
        ) is None ==> r is None && *final(ext) == *old(ext),
        match spec_inline_footnote_end(
            *md,
            src@,
            pos as int,
            pos_max as int,
            old(ext).footnotes_model(),
        ) {
            Some(e) => {
                let defs0 = match old(ext).footnotes() {
                    Some(m0) => m0.defs(),
                    None => 0,
                };
                let refs0 = match old(ext).footnotes() {
                    Some(m0) => m0.refs(),
                    None => 0,
                };
                if defs0 < usize::MAX && refs0 < usize::MAX {
                    r matches Some((n, len)) && {
                        &&& len == e + 1 - pos
                        &&& 1 <= len <= pos_max - pos
                        &&& n.value is InlineFootnote
                        &&& n.children@.len() == 2
                        &&& n.children@[0].value matches NodeValue::FootnoteDefinition(d) && {
                            &&& d.label is None
                            &&& d.def_id == Some((defs0 + 1) as usize)
                            &&& d.inline
                        }
                        &&& n.children@[1].value matches NodeValue::FootnoteReference(fr) && {
                            &&& fr.label is None
                            &&& fr.def_id == (defs0 + 1) as usize
                            &&& fr.ref_id == (refs0 + 1) as usize
                        }
                    }
                } else {
                    r is None
                }
            },
            None => true,
        },
        ({
            let fm0 = old(ext).footnotes_model();
            match spec_inline_footnote_end(*md, src@, pos as int, pos_max as int, fm0) {
                None => final(ext).footnotes_model() == fm0,
                Some(e) => {
                    let m0 = match fm0 {
                        Some(m) => m,
                        None => fm_empty(),
                    };
                    if m0.defs < usize::MAX && m0.refs < usize::MAX {
                        let (m1, ids) = spec_add_inline(m0);
                        let tk = spec_tok(*md, src@, pos + 2, e, Some(m1), pos + 2);
                        &&& final(ext).footnotes_model() == tk.1
                        &&& r matches Some((n, len)) && len == e + 1 - pos && n.to_model() == (
                        NodeModel {
                            value: ValueModel::InlineFootnote,
                            attrs: Seq::empty(),
                            children: seq![
                                NodeModel {
                                    value: ValueModel::FootnoteDefinition {
                                        label: None,
                                        def_id: Some(ids.0),
                                        inline: true,
                                    },
                                    attrs: Seq::empty(),
                                    children: tk.0,
                                },
                                leaf_model(
                                    ValueModel::FootnoteReference {
                                        label: None,
                                        ref_id: ids.1,
                                        def_id: ids.0,
                                    },
                                ),
                            ],
                        })
                    } else {
                        r is None && final(ext).footnotes_model() == Some(m0)
                    }
                },
            }
        }),
    decreases pos_max - pos, 0int,
{
    let ghost fm0 = old(ext).footnotes_model();
    if !(src.get_char(pos) == '^' && pos + 1 < pos_max && src.get_char(pos + 1) == '[') {
        proof {
            assert(spec_inline_footnote_end(*md, src@, pos as int, pos_max as int, fm0)
                is None);
        }
        return None;
    }
    let content_start = pos + 2;
    if pos_max - pos < 3 {
        proof {
            assert(spec_close_pos(*md, src@, pos + 3, pos_max as int, fm0) is None);
            assert(spec_inline_footnote_end(*md, src@, pos as int, pos_max as int, fm0)
                is None);
        }
        return None;
    }
    let found = find_close(md, src, pos + 3, pos_max, ext);
    let e = match found {
        None => {
            proof {
                assert(spec_inline_footnote_end(*md, src@, pos as int, pos_max as int, fm0)
                    is None);
            }
            return None;
        },
        Some(e) => e,
    };
    let mut m = match ext.take_footnotes() {
        Some(m) => m,
        None => FootnoteMap::new(),
    };
    proof {
        m.lemma_id_bounds();
        m.lemma_model_agrees();
    }
    if !m.can_alloc() {
        ext.insert_footnotes(m);
        return None;
    }
    let ids = m.add_inline_def();
    let def_id = ids.0;
    let ref_id = ids.1;
    ext.insert_footnotes(m);
    let mut body: Vec<Node> = Vec::new();
    tokenize(md, src, content_start, e, ext, &mut body);
    let mut def_node = Node::new(
        NodeValue::FootnoteDefinition(
            FootnoteDefinition { label: None, def_id: Some(def_id), inline: true },
        ),
    );
    def_node.children = body;
    let ref_node = Node::new(
        NodeValue::FootnoteReference(FootnoteReference { label: None, ref_id, def_id }),
    );
    let mut outer = Node::new(NodeValue::InlineFootnote(InlineFootnote {  }));
    proof {
        crate::node::lemma_seq_model_push(outer.children@, def_node);
    }
    outer.children.push(def_node);
    proof {
        crate::node::lemma_seq_model_push(outer.children@, ref_node);
    }
    outer.children.push(ref_node);
    proof {
        let ghost tk = spec_tok(
            *md,
            src@,
            pos + 2,
            e as int,
            Some(spec_add_inline(
                match old(ext).footnotes_model() {
                    Some(m0) => m0,
                    None => fm_empty(),
                },
            ).0),
            pos + 2,
        );
        assert(attr_model(def_node.attrs@) =~= Seq::<(Seq<char>, Seq<char>)>::empty());
        assert(seq_model(body@) == tk.0);
        assert(def_node.to_model() =~= (NodeModel {
            value: ValueModel::FootnoteDefinition {
                label: None,
                def_id: Some(def_id),
                inline: true,
            },
            attrs: Seq::empty(),
            children: tk.0,
        }));
        assert(attr_model(ref_node.attrs@) =~= Seq::<(Seq<char>, Seq<char>)>::empty());
        assert(seq_model(ref_node.children@) =~= Seq::<NodeModel>::empty());
        assert(ref_node.to_model() =~= leaf_model(
            ValueModel::FootnoteReference { label: None, ref_id, def_id },
        ));
        assert(attr_model(outer.attrs@) =~= Seq::<(Seq<char>, Seq<char>)>::empty());
        assert(seq_model(outer.children@) =~= seq![def_node.to_model(), ref_node.to_model()]);
        assert(outer.to_model() =~= (NodeModel {
            value: ValueModel::InlineFootnote,
            attrs: Seq::empty(),
            children: seq![def_node.to_model(), ref_node.to_model()],
        }));
    }
    Some((outer, e + 1 - pos))
}

/// Registers the inline-footnote rule.
pub fn add(md: &mut MarkdownIt)
    ensures
        final(md).inline_rules@ == old(md).inline_rules@.push(InlineRuleName::InlineFootnote),
        final(md).block_rules@ == old(md).block_rules@,
        final(md).core_rules@ == old(md).core_rules@,
        final(md).ext == old(md).ext,
{
    md.add_inline_rule(InlineRuleName::InlineFootnote);
}

} // verus!
