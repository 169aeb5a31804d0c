//! Footnote definitions: `[^label]: note text`.
//!
//! A definition registers its label in the root-scoped footnote map; a
//! later definition of the same label is rejected, so that occurrence
//! falls through to ordinary paragraph handling (the first one wins).
//! Indented following lines continue the note body.
use crate::block::spec_indent;
use crate::block::spec_blank_line;
use crate::block::spec_join_lines;
use crate::block::blank_line;
use crate::block::join_lines;
use crate::block::line_indent;
use crate::block::strip_indent;
use crate::extset::ExtSet;
use crate::fence::spec_skip_blank;
use crate::footnote::fm_empty;
use crate::footnote::spec_add_def;
use crate::footnote::FootnoteMap;
use crate::node::leaf_model;
use crate::node::NodeModel;
use crate::node::ValueModel;
use crate::node::Node;
use crate::node::NodeValue;
use crate::node::Paragraph;
use crate::parser::BlockRuleName;
use crate::parser::MarkdownIt;
use crate::text::lemma_find_char_props;
use crate::text::push_char;
use crate::text::spec_trim;
use crate::text::trim_str;
use crate::text::spec_find_char;
use crate::text::find_char_from;
use vstd::prelude::*;
use vstd::string::*;

verus! {

/// AST node for a footnote definition.  `def_id` is None when the
/// definition was parsed but not registered; `inline` marks a definition
/// synthesized from an inline footnote.
pub struct FootnoteDefinition {
    pub label: Option<String>,
    pub def_id: Option<usize>,
    pub inline: bool,
}

/// What a definition scan of one line yields: the label between `[^` and
/// the first `]` (nonempty, without spaces, and directly followed by a
/// colon), and the note text after the colon with leading blanks removed.
pub open spec fn spec_def_syntax(l: Seq<char>, max_indent: int) -> Option<(Seq<char>, Seq<char>)> {
    let ind = spec_indent(l);
    let b = l.skip(ind);
    if ind >= max_indent || b.len() < 2 {
        None
    } else if b[0] != '[' || b[1] != '^' {
        None
    } else {
        match spec_find_char(b, ']', 2, b.len() as int) {
            Some(e) => if e > 2 && (forall|k: int| 2 <= k < e ==> b[k] != ' ') && e + 1
                < b.len() && b[e + 1] == ':' {
                Some((b.subrange(2, e), spec_skip_blank(b.skip(e + 2))))
            } else {
                None
            },
            None => None,
        }
    }
}

/// A line that continues a definition body: non-blank and indented by at
/// least four spaces.
pub open spec fn spec_def_cont(l: Seq<char>) -> bool {
    !spec_blank_line(l) && spec_indent(l) >= 4
}

/// The first line at or after `j` that does not continue the body.
pub open spec fn spec_def_body_end(lines: Seq<Seq<char>>, j: int) -> int
    decreases lines.len() - j,
{
    if j < 0 || j >= lines.len() {
        lines.len() as int
    } else if spec_def_cont(lines[j]) {
        spec_def_body_end(lines, j + 1)
    } else {
        j
    }
}

/// Scans the line for definition syntax, without touching any state.
fn scan_def_line(l: &String, max_indent: usize) -> (r: Option<(String, String)>)
    ensures
        match spec_def_syntax(l@, max_indent as int) {
            Some((label, rest)) => r matches Some((ls, rs)) && ls@ == label && rs@ == rest,
            None => r is None,
        },
{
    let ind = line_indent(l);
    if ind >= max_indent {
        return None;
    }
    let b = strip_indent(l, ind);
    let bs = b.as_str();
    let bn = bs.unicode_len();
    if bn < 2 {
        return None;
    }
    if !(bs.get_char(0) == '[' && bs.get_char(1) == '^') {
        return None;
    }
    let found = find_char_from(bs, ']', 2, bn);
    proof {
        lemma_find_char_props(b@, ']', 2, bn as int);
    }
    let e = match found {
        None => {
            return None;
        },
        Some(e) => e,
    };
    if e == 2 {
        return None;
    }
    let mut k: usize = 2;
    while k < e
        invariant
            2 <= k <= e,
            e < bn == b@.len(),
            bs@ == b@,
            b@ == l@.skip(spec_indent(l@)),
            spec_indent(l@) < max_indent,
            bn >= 2,
            b@[0] == '[',
            b@[1] == '^',
            spec_find_char(b@, ']', 2, bn as int) == Some(e as int),
            forall|j: int| 2 <= j < k ==> b@[j] != ' ',
        decreases e - k,
    {
        if bs.get_char(k) == ' ' {
            return None;
        }
        k = k + 1;
    }
    if e + 1 >= bn {
        return None;
    }
    if bs.get_char(e + 1) != ':' {
        return None;
    }
    let label = bs.substring_char(2, e).to_owned();
    let tail = bs.substring_char(e + 2, bn);
    let rest = skip_blank_str(tail);
    proof {
        assert(tail@ =~= b@.skip(e + 2));
    }
    Some((label, rest))
}

/// Removes leading spaces and tabs.
fn skip_blank_str(s: &str) -> (r: String)
    ensures
        r@ == spec_skip_blank(s@),
{
    let n = s.unicode_len();
    let mut i: usize = 0;
    proof {
        assert(s@.skip(0) =~= s@);
    }
    while i < n && (s.get_char(i) == ' ' || s.get_char(i) == '\t')
        invariant
            i <= n,
            n == s@.len(),
            spec_skip_blank(s@) == spec_skip_blank(s@.skip(i as int)),
        decreases n - i,
    {
        proof {
            assert(s@.skip(i as int)[0] == s@[i as int]);
            assert(s@.skip(i as int).drop_first() =~= s@.skip(i + 1));
        }
        i = i + 1;
    }
    proof {
        if i < n {
            assert(s@.skip(i as int)[0] == s@[i as int]);
        }
        assert(spec_skip_blank(s@.skip(i as int)) == s@.skip(i as int));
    }
    s.substring_char(i, n).to_owned()
}

/// Whether the definition rule would claim this line, by syntax alone
/// (used for paragraph interruption).
pub fn footnote_def_check(md: &MarkdownIt, lines: &Vec<String>, line: usize) -> (r: bool)
    requires
        line < lines@.len(),
    ensures
        r == (spec_def_syntax(lines@[line as int]@, md.max_indent as int) is Some),
{
    scan_def_line(&lines[line], md.max_indent).is_some()
}

/// Matches a footnote definition: registers the label (the first
/// definition of a label wins; a duplicate is no match and falls through
/// to paragraph handling), consumes the indented continuation lines, and
/// wraps the note text in a paragraph child for later inline parsing.
pub fn footnote_def_run(
    md: &MarkdownIt,
    lines: &Vec<String>,
    line: usize,
    ext: &mut ExtSet,
) -> (r: Option<(Node, usize)>)
    requires
        line < lines@.len(),
        old(ext).wf(),
    ensures
        final(ext).wf(),
        final(ext).fence() == old(ext).fence(),
        r matches Some((n, cnt)) ==> 1 <= cnt <= lines@.len() - line,
        spec_def_syntax(lines@[line as int]@, md.max_indent as int) is None ==> r is None
            && *final(ext) == *old(ext),
        match spec_def_syntax(lines@[line as int]@, md.max_indent as int) {
            Some((label, rest)) => {
                let views = lines@.map_values(|l: String| l@);
                let bend = spec_def_body_end(views, line + 1);
                &&& (final(ext).footnotes() matches Some(m1) && m1.wf())
                &&& match old(ext).footnotes() {
                    Some(m0) => {
                        if m0.def_of(label) is None && m0.defs() < usize::MAX {
                            let d = (m0.defs() + 1) as usize;
                            &&& r matches Some((n, cnt)) && {
                                &&& cnt == bend - line
                                &&& 1 <= cnt <= views.len() - line
                                &&& n.value matches NodeValue::FootnoteDefinition(fd) && {
                                    &&& fd.label matches Some(ls) && ls@ == label
                                    &&& fd.def_id == Some(d)
                                    &&& !fd.inline
                                }
                                &&& n.children@.len() == 1
                                &&& n.attrs@.len() == 0
                                &&& n.children@[0].children@.len() == 0
                                &&& n.children@[0].attrs@.len() == 0
                                &&& n.children@[0].value matches NodeValue::Paragraph(p)
                                    && p.raw@ == spec_trim(
                                    rest + seq!['\n'] + spec_join_lines(views, line + 1, bend, 4),
                                )
                            }
                            &&& final(ext).footnotes() matches Some(m1) && {
                                &&& m1.defs() == m0.defs() + 1
                                &&& m1.refs() == m0.refs()
                                &&& m1.def_of(label) == Some(d)
                                &&& (forall|l: Seq<char>|
                                    l != label ==> m1.def_of(l) == m0.def_of(l))
                                &&& (forall|d2: usize| m1.refs_of(d2) == m0.refs_of(d2))
                            }
                        } else {
                            r is None && final(ext).footnotes() == Some(m0)
                        }
                    },
                    None => {
                        &&& r matches Some((n, cnt)) && {
                            &&& cnt == bend - line
                            &&& n.value matches NodeValue::FootnoteDefinition(fd)
                                && fd.def_id == Some(1usize) && !fd.inline
                        }
                        &&& final(ext).footnotes() matches Some(m1) && m1.defs() == 1
                            && m1.def_of(label) == Some(1usize)
                    },
                }
            },
            None => true,
        },
        ({
            let fm0 = old(ext).footnotes_model();
            let views = lines@.map_values(|l: String| l@);
            match spec_def_syntax(lines@[line as int]@, md.max_indent as int) {
                None => final(ext).footnotes_model() == fm0,
                Some((label, rest)) => {
                    let m0 = match fm0 {
                        Some(m) => m,
                        None => fm_empty(),
                    };
                    let (m1, res) = spec_add_def(m0, label);
                    &&& final(ext).footnotes_model() == Some(m1)
                    &&& match res {
                        Some(id) => {
                            let bend = spec_def_body_end(views, line + 1);
                            r matches Some((n, cnt)) && cnt == bend - line && n.to_model() == (
                            NodeModel {
                                value: ValueModel::FootnoteDefinition {
                                    label: Some(label),
                                    def_id: Some(id),
                                    inline: false,
                                },
                                attrs: Seq::empty(),
                                children: seq![
                                    leaf_model(
                                        ValueModel::Paragraph(
                                            spec_trim(
                                                rest + seq!['\n'] + spec_join_lines(
                                                    views,
                                                    line + 1,
                                                    bend,
                                                    4,
                                                ),
                                            ),
                                        ),
                                    ),
                                ],
                            })
                        },
                        None => r is None,
                    }
                },
            }
        }),
{
    let ghost views = lines@.map_values(|l: String| l@);
    let scanned = scan_def_line(&lines[line], md.max_indent);
    let (label, rest) = match scanned {
        None => {
            return None;
        },
        Some(p) => p,
    };
    let mut m = match ext.take_footnotes() {
        Some(m) => m,
        None => FootnoteMap::new(),
    };
    proof {
        m.lemma_id_bounds();
        m.lemma_model_agrees();
    }
    let added = m.add_def(label.as_str());
    ext.insert_footnotes(m);
    let d = match added {
        None => {
            return None;
        },
        Some(d) => d,
    };
    let line_max = lines.len();
    let mut j = line + 1;
    while j < line_max && def_cont_line(&lines[j])
        invariant
            line + 1 <= j <= line_max,
            line_max == lines@.len(),
            views == lines@.map_values(|l: String| l@),
            spec_def_body_end(views, line + 1) == spec_def_body_end(views, j as int),
        decreases line_max - j,
    {
        proof {
            assert(views[j as int] == lines@[j as int]@);
        }
        j = j + 1;
    }
    proof {
        if j < line_max {
            assert(views[j as int] == lines@[j as int]@);
        }
        assert(spec_def_body_end(views, j as int) == j);
    }
    let ghost rest_v = rest@;
    let mut raw = rest;
    push_char(&mut raw, '\n');
    let cont = join_lines(lines, line + 1, j, 4);
    raw.append(cont.as_str());
    proof {
        assert(raw@ =~= rest_v + seq!['\n'] + spec_join_lines(views, line + 1, j as int, 4));
    }
    let raw = trim_str(raw.as_str());
    let mut para = Node::new(NodeValue::Paragraph(Paragraph { raw }));
    let ghost label_v = label@;
    let mut node = Node::new(
        NodeValue::FootnoteDefinition(
            FootnoteDefinition { label: Some(label), def_id: Some(d), inline: false },
        ),
    );
    proof {
        assert(crate::node::attr_model(para.attrs@) =~= Seq::<(Seq<char>, Seq<char>)>::empty());
        assert(crate::node::seq_model(para.children@) =~= Seq::<NodeModel>::empty());
        assert(para.to_model() =~= leaf_model(ValueModel::Paragraph(para.value->Paragraph_0.raw@)));
        crate::node::lemma_seq_model_push(node.children@, para);
    }
    node.children.push(para);
    proof {
        assert(crate::node::attr_model(node.attrs@) =~= Seq::<(Seq<char>, Seq<char>)>::empty());
        assert(crate::node::seq_model(node.children@) =~= seq![
            leaf_model(
                ValueModel::Paragraph(
                    spec_trim(
                        rest_v + seq!['\n'] + spec_join_lines(views, line + 1, j as int, 4),
                    ),
                ),
            ),
        ]);
        assert(node.to_model() =~= (NodeModel {
            value: ValueModel::FootnoteDefinition {
                label: Some(label_v),
                def_id: Some(d),
                inline: false,
            },
            attrs: Seq::empty(),
            children: seq![
                leaf_model(
                    ValueModel::Paragraph(
                        spec_trim(
                            rest_v + seq!['\n'] + spec_join_lines(views, line + 1, j as int, 4),
                        ),
                    ),
                ),
            ],
        }));
    }
    Some((node, j - line))
}

/// Reports whether the line continues a definition body.
fn def_cont_line(l: &String) -> (r: bool)
    ensures
        r == spec_def_cont(l@),
{
    !blank_line(l) && line_indent(l) >= 4
}

/// Registers the footnote-definition block rule.
pub fn add(md: &mut MarkdownIt)
    ensures
        final(md).block_rules@ == old(md).block_rules@.push(BlockRuleName::FootnoteDef),
        final(md).inline_rules@ == old(md).inline_rules@,
        final(md).core_rules@ == old(md).core_rules@,
        final(md).ext == old(md).ext,
{
    md.add_block_rule(BlockRuleName::FootnoteDef);
}

} // verus!
