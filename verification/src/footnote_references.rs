//! Footnote references: `[^label]`.
//!
//! A reference resolves only against a label that is already defined; an
//! unresolved reference is rejected and its text falls through to ordinary
//! text handling.
use crate::footnote::fm_empty;
use crate::footnote::spec_add_ref;
use crate::footnote::FootnoteMap;
use crate::extset::ExtSet;
use crate::node::leaf_model;
use crate::node::ValueModel;
use crate::node::Node;
use crate::node::NodeValue;
use crate::parser::InlineRuleName;
use crate::parser::MarkdownIt;
use crate::text::lemma_find_char_props;
use crate::text::spec_find_char;
use crate::text::find_char_from;
use vstd::prelude::*;
use vstd::string::*;

verus! {

/// AST node for a footnote reference.
pub struct FootnoteReference {
    pub label: Option<String>,
    pub ref_id: usize,
    pub def_id: usize,
}

/// The label of a reference span at `pos`: the text between `[^` and the
/// first `]`, provided it is nonempty and contains no space.
pub open spec fn spec_ref_label(s: Seq<char>, pos: int, pos_max: int) -> Option<Seq<char>> {
    if pos + 2 <= pos_max <= s.len() && s[pos] == '[' && s[pos + 1] == '^' {
        match spec_find_char(s, ']', pos + 2, pos_max) {
            Some(e) => if e > pos + 2 && (forall|k: int| pos + 2 <= k < e ==> s[k] != ' ') {
                Some(s.subrange(pos + 2, e))
            } else {
                None
            },
            None => None,
        }
    } else {
        None
    }
}

/// The footnote map taken out of `ext`, or a fresh one.
fn take_map(ext: &mut ExtSet) -> (m: FootnoteMap)
    requires
        old(ext).wf(),
    ensures
        final(ext).wf(),
        m.wf(),
        match old(ext).footnotes() {
            Some(m0) => m == m0,
            None => m.defs() == 0 && m.refs() == 0 && (forall|l: Seq<char>| m.def_of(l) is None)
                && (forall|d: usize| m.refs_of(d) == Seq::<usize>::empty()),
        },
        m.model() == match old(ext).footnotes_model() {
            Some(m0) => m0,
            None => fm_empty(),
        },
        final(ext).fence() == old(ext).fence(),
{
    let taken = ext.take_footnotes();
    match taken {
        Some(m) => m,
        None => FootnoteMap::new(),
    }
}

/// Judges, read-only, whether the reference rule would match at `pos`,
/// and over how many characters: the span syntax holds, its label is
/// defined, and the reference counter can still allocate.
pub fn ref_peek_len(src: &str, pos: usize, pos_max: usize, ext: &ExtSet) -> (r: Option<usize>)
    requires
        pos < pos_max <= src@.len(),
    ensures
        r == (match spec_ref_label(src@, pos as int, pos_max as int) {
            Some(label) => {
                let m0 = match ext.footnotes_model() {
                    Some(m) => m,
                    None => fm_empty(),
                };
                if crate::footnote::model_def_of(m0.labels, label) is Some && m0.refs
                    < usize::MAX {
                    Some((label.len() + 3) as usize)
                } else {
                    None
                }
            },
            None => None,
        }),
{
    if !(src.get_char(pos) == '[' && pos + 1 < pos_max && src.get_char(pos + 1) == '^') {
        proof {
            assert(spec_ref_label(src@, pos as int, pos_max as int) is None);
        }
        return None;
    }
    let found = find_char_from(src, ']', pos + 2, pos_max);
    proof {
        lemma_find_char_props(src@, ']', pos + 2, pos_max as int);
    }
    let e = match found {
        None => {
            proof {
                assert(spec_ref_label(src@, pos as int, pos_max as int) is None);
            }
            return None;
        },
        Some(e) => e,
    };
    if e == pos + 2 {
        proof {
            assert(spec_ref_label(src@, pos as int, pos_max as int) is None);
        }
        return None;
    }
    let mut k = pos + 2;
    while k < e
        invariant
            pos < pos_max,
            pos + 2 < e < pos_max <= src@.len(),
            pos + 2 <= k <= e,
            src@[pos as int] == '[',
            src@[pos + 1] == '^',
            spec_find_char(src@, ']', pos + 2, pos_max as int) == Some(e as int),
            forall|j: int| pos + 2 <= j < k ==> src@[j] != ' ',
        decreases e - k,
    {
        if src.get_char(k) == ' ' {
            proof {
                assert(spec_ref_label(src@, pos as int, pos_max as int) is None);
            }
            return None;
        }
        k = k + 1;
    }
    let ghost label = src@.subrange(pos + 2, e as int);
    proof {
        assert(spec_ref_label(src@, pos as int, pos_max as int) == Some(label));
    }
    let label_str = src.substring_char(pos + 2, e);
    let accepted = match ext.get_footnotes() {
        Some(m) => {
            proof {
                m.lemma_model_agrees();
            }
            m.would_accept_ref(label_str)
        },
        None => {
            let fresh = FootnoteMap::new();
            proof {
                fresh.lemma_model_agrees();
            }
            fresh.would_accept_ref(label_str)
        },
    };
    if accepted {
        Some(e + 1 - pos)
    } else {
        None
    }
}

/// Matches `[^label]` at the current position and resolves the label
/// against the root-scoped footnote map, allocating a fresh reference id.
/// A span whose label is not yet defined is no match; a map is put in
/// place if none was there.
pub fn footnote_ref_run(src: &str, pos: usize, pos_max: usize, ext: &mut ExtSet) -> (r: Option<
    (Node, usize),
>)
    requires
        pos < pos_max <= src@.len(),
        old(ext).wf(),
    ensures
        final(ext).wf(),
        final(ext).fence() == old(ext).fence(),
        spec_ref_label(src@, pos as int, pos_max as int) is None ==> r is None && *final(ext)
            == *old(ext),
        match spec_ref_label(src@, pos as int, pos_max as int) {
            Some(label) => {
                &&& final(ext).footnotes() matches Some(m1) && m1.wf()
                &&& match old(ext).footnotes() {
                    Some(m0) => {
                        if m0.def_of(label) is Some && m0.refs() < usize::MAX {
                            let d = m0.def_of(label)->Some_0;
                            let rid = (m0.refs() + 1) as usize;
                            &&& r matches Some((n, len)) && {
                                &&& len == label.len() + 3
                                &&& 1 <= len <= pos_max - pos
                                &&& n.children@.len() == 0
                                &&& n.attrs@.len() == 0
                                &&& n.value matches NodeValue::FootnoteReference(fr) && {
                                    &&& fr.label matches Some(l) && l@ == label
                                    &&& fr.ref_id == rid
                                    &&& fr.def_id == d
                                }
                            }
                            &&& final(ext).footnotes() matches Some(m1) && {
                                &&& m1.refs() == m0.refs() + 1
                                &&& m1.defs() == m0.defs()
                                &&& (forall|l: Seq<char>| m1.def_of(l) == m0.def_of(l))
                                &&& m1.refs_of(d) == m0.refs_of(d).push(rid)
                                &&& (forall|e: usize| e != d ==> m1.refs_of(e) == m0.refs_of(e))
                            }
                        } else {
                            r is None && final(ext).footnotes() == Some(m0)
                        }
                    },
                    None => r is None && (final(ext).footnotes() matches Some(m1) && m1.defs()
                        == 0 && m1.refs() == 0),
                }
            },
            None => true,
        },
        ({
            let fm0 = old(ext).footnotes_model();
            match spec_ref_label(src@, pos as int, pos_max as int) {
                None => final(ext).footnotes_model() == fm0,
                Some(label) => {
                    let m0 = match fm0 {
                        Some(m) => m,
                        None => fm_empty(),
                    };
                    let (m1, res) = spec_add_ref(m0, label);
                    &&& final(ext).footnotes_model() == Some(m1)
                    &&& match res {
                        Some((d, rid)) => r matches Some((n, len)) && len == label.len() + 3
                            && n.to_model() == leaf_model(
                            ValueModel::FootnoteReference {
                                label: Some(label),
                                ref_id: rid,
                                def_id: d,
                            },
                        ),
                        None => r is None,
                    }
                },
            }
        }),
{
    if !(src.get_char(pos) == '[' && pos + 1 < pos_max && src.get_char(pos + 1) == '^') {
        proof {
            assert(spec_ref_label(src@, pos as int, pos_max as int) is None);
        }
        return None;
    }
    let found = find_char_from(src, ']', pos + 2, pos_max);
    proof {
        lemma_find_char_props(src@, ']', pos + 2, pos_max as int);
    }
    let e = match found {
        None => {
            proof {
                assert(spec_ref_label(src@, pos as int, pos_max as int) is None);
            }
            return None;
        },
        Some(e) => e,
    };
    if e == pos + 2 {
        proof {
            assert(spec_ref_label(src@, pos as int, pos_max as int) is None);
        }
        return None;
    }
    // the labels in footnote references may not contain spaces
    let mut k = pos + 2;
    while k < e
        invariant
            pos < pos_max,
            pos + 2 < e < pos_max <= src@.len(),
            pos + 2 <= k <= e,
            *ext == *old(ext),
            old(ext).wf(),
            src@[pos as int] == '[',
            src@[pos + 1] == '^',
            spec_find_char(src@, ']', pos + 2, pos_max as int) == Some(e as int),
            forall|j: int| pos + 2 <= j < k ==> src@[j] != ' ',
        decreases e - k,
    {
        if src.get_char(k) == ' ' {
            proof {
                assert(spec_ref_label(src@, pos as int, pos_max as int) is None);
            }
            return None;
        }
        k = k + 1;
    }
    let ghost label = src@.subrange(pos + 2, e as int);
    proof {
        assert(spec_ref_label(src@, pos as int, pos_max as int) == Some(label));
    }
    let label_str = src.substring_char(pos + 2, e).to_owned();
    let mut m = take_map(ext);
    proof {
        m.lemma_id_bounds();
    }
    let res = m.add_ref(label_str.as_str());
    ext.insert_footnotes(m);
    match res {
        None => None,
        Some((d, rid)) => {
            let node = Node::new(
                NodeValue::FootnoteReference(
                    FootnoteReference { label: Some(label_str), ref_id: rid, def_id: d },
                ),
            );
            proof {
                assert(crate::node::attr_model(node.attrs@) =~= Seq::<(Seq<char>, Seq<char>)>::empty());
                assert(crate::node::seq_model(node.children@) =~= Seq::<crate::node::NodeModel>::empty());
                assert(node.to_model() =~= leaf_model(
                    ValueModel::FootnoteReference { label: Some(label), ref_id: rid, def_id: d },
                ));
            }
            Some((node, e + 1 - pos))
        },
    }
}

/// Registers the footnote-reference inline rule.
pub fn add(md: &mut MarkdownIt)
    ensures
        final(md).inline_rules@ == old(md).inline_rules@.push(InlineRuleName::FootnoteRef),
        final(md).block_rules@ == old(md).block_rules@,
        final(md).core_rules@ == old(md).core_rules@,
        final(md).ext == old(md).ext,
{
    md.add_inline_rule(InlineRuleName::FootnoteRef);
}

} // verus!
