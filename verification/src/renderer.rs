//! The rendering contract.
//!
//! A renderer is an output sink with tag-open, tag-close, self-close, text
//! (escaped), raw text (unescaped) and newline emission.  Every payload
//! renders through this one contract; the two entry points differ only in
//! whether self-closing tags carry a trailing slash.  The whole walk is
//! specified by `render_of`, a functional model of the output.
use crate::citation::citation_to_html;
use crate::citation::spec_citation_html;
use crate::contact_info::spec_phone_clean;
use crate::text::matches_at;
use crate::text::check_match_at;
use crate::contact_info::ContactInfoType;
use crate::contact_info::phone_clean;
use crate::fence::fence_lang;
use crate::fence::info_lang;
use crate::inkjet::inkjet_markup;
use crate::inkjet::spec_inkjet_markup;
use crate::math::math_render;
use crate::math::spec_math_render;
use crate::node::seq_model;
use crate::node::value_model;
use crate::node::Node;
use crate::node::NodeModel;
use crate::node::NodeValue;
use crate::node::ValueModel;
use crate::node::clone_attrs;
use crate::text::escape_html;
use crate::text::push_decimal;
use crate::text::push_escaped;
use crate::text::spec_decimal;
use vstd::prelude::*;
use vstd::string::*;

verus! {

/// The views of an attribute list.
pub open spec fn attr_views(attrs: Seq<(String, String)>) -> Seq<(Seq<char>, Seq<char>)> {
    attrs.map_values(|p: (String, String)| (p.0@, p.1@))
}

/// One rendered attribute: a space, the name, `="`, the escaped value, `"`.
pub open spec fn one_attr(p: (Seq<char>, Seq<char>)) -> Seq<char> {
    seq![' '] + p.0 + seq!['=', '"'] + escape_html(p.1) + seq!['"']
}

/// All attributes of a tag, in order.
pub open spec fn attrs_text(attrs: Seq<(Seq<char>, Seq<char>)>) -> Seq<char>
    decreases attrs.len(),
{
    if attrs.len() == 0 {
        Seq::empty()
    } else {
        one_attr(attrs[0]) + attrs_text(attrs.drop_first())
    }
}

proof fn lemma_attrs_text_snoc(attrs: Seq<(Seq<char>, Seq<char>)>, p: (Seq<char>, Seq<char>))
    ensures
        attrs_text(attrs.push(p)) == attrs_text(attrs) + one_attr(p),
    decreases attrs.len(),
{
    if attrs.len() == 0 {
        assert(attrs.push(p)[0] == p);
        assert(attrs.push(p).drop_first() =~= Seq::<(Seq<char>, Seq<char>)>::empty());
        assert(attrs_text(Seq::<(Seq<char>, Seq<char>)>::empty()) == Seq::<char>::empty());
        assert(attrs_text(attrs.push(p)) =~= attrs_text(attrs) + one_attr(p));
    } else {
        lemma_attrs_text_snoc(attrs.drop_first(), p);
        assert(attrs.push(p)[0] == attrs[0]);
        assert(attrs.push(p).drop_first() =~= attrs.drop_first().push(p));
        assert(attrs_text(attrs.push(p)) =~= attrs_text(attrs) + one_attr(p));
    }
}

/// An opening tag.
pub open spec fn open_text(tag: Seq<char>, attrs: Seq<(Seq<char>, Seq<char>)>) -> Seq<char> {
    seq!['<'] + tag + attrs_text(attrs) + seq!['>']
}

/// A closing tag.
pub open spec fn close_text(tag: Seq<char>) -> Seq<char> {
    seq!['<', '/'] + tag + seq!['>']
}

/// A self-closing tag; the trailing slash is emitted only in xhtml mode.
pub open spec fn self_close_text(
    tag: Seq<char>,
    attrs: Seq<(Seq<char>, Seq<char>)>,
    xhtml: bool,
) -> Seq<char> {
    seq!['<'] + tag + attrs_text(attrs) + (if xhtml {
        seq![' ', '/', '>']
    } else {
        seq!['>']
    })
}

/// `out` followed by a newline, unless the last emitted character already
/// is one (or nothing was emitted yet).
pub open spec fn cr_text(out: Seq<char>) -> Seq<char> {
    if out.len() == 0 || out[out.len() - 1] == '\n' {
        out
    } else {
        out.push('\n')
    }
}

/// The output after rendering `node` against prior output `out`.
pub open spec fn render_of(out: Seq<char>, node: Node, xhtml: bool) -> Seq<char>
    decreases node, 1int,
{
    match node.value {
        NodeValue::Root(_) => render_seq(out, node.children@, xhtml),
        NodeValue::Text(t) => out + escape_html(t.content@),
        NodeValue::Paragraph(_) => cr_text(
            render_seq(cr_text(out), node.children@, xhtml),
        ),
        NodeValue::CodeFence(f) => {
            let lang = info_lang(f.info@);
            let body = open_text("div"@, seq![("class"@, "codehilite"@)]) + open_text(
                "span"@,
                seq![("class"@, "filename"@)],
            ) + escape_html(lang) + close_text("span"@) + open_text("pre"@, Seq::empty())
                + open_text("span"@, Seq::empty()) + close_text("span"@) + open_text(
                "code"@,
                Seq::empty(),
            ) + escape_html(f.content@) + close_text("code"@) + close_text("pre"@) + close_text(
                "div"@,
            );
            cr_text(cr_text(out) + body)
        },
        NodeValue::InkjetCodeFence(f) => cr_text(
            cr_text(out) + spec_inkjet_markup(f.info@, f.content@),
        ),
        NodeValue::FrontMatter(_) => out,
        NodeValue::FootnoteReference(r) => {
            let sup_attrs = attr_views(node.attrs@).push(("class"@, "footnote-ref"@));
            let a_attrs = seq![
                ("href"@, seq!['#', 'f', 'n'] + spec_decimal(r.def_id as int)),
                ("id"@, seq!['f', 'n', 'r', 'e', 'f'] + spec_decimal(r.ref_id as int)),
            ];
            out + open_text("sup"@, sup_attrs) + open_text("a"@, a_attrs) + escape_html(
                seq!['['] + spec_decimal(r.def_id as int) + seq![']'],
            ) + close_text("a"@) + close_text("sup"@)
        },
        NodeValue::FootnoteDefinition(d) => {
            let li_attrs = match d.def_id {
                Some(id) => attr_views(node.attrs@).push(
                    ("id"@, seq!['f', 'n'] + spec_decimal(id as int)),
                ).push(("class"@, "footnote-item"@)),
                None => attr_views(node.attrs@).push(("class"@, "footnote-item"@)),
            };
            cr_text(
                render_seq(cr_text(out) + open_text("li"@, li_attrs), node.children@, xhtml)
                    + close_text("li"@),
            )
        },
        NodeValue::InlineFootnote(_) => render_seq(out, node.children@, xhtml),
        NodeValue::FootnotesContainer(_) => {
            let section_attrs = attr_views(node.attrs@).push(("class"@, "footnotes"@));
            let s1 = cr_text(out) + self_close_text(
                "hr"@,
                seq![("class"@, "footnotes-sep"@)],
                xhtml,
            );
            let s2 = cr_text(s1) + open_text("section"@, section_attrs);
            let s3 = cr_text(s2) + open_text("ol"@, seq![("class"@, "footnotes-list"@)]);
            let s4 = cr_text(render_seq(cr_text(s3), node.children@, xhtml));
            let s5 = cr_text(s4 + close_text("ol"@));
            cr_text(s5 + close_text("section"@))
        },
        NodeValue::ContactInfo(c) => {
            let cleaned = match c.info_type {
                ContactInfoType::Email => c.content@,
                ContactInfoType::Phone => spec_phone_clean(c.content@),
            };
            let a_attrs = attr_views(node.attrs@).push(("href"@, c.prefix@ + cleaned));
            out + open_text("a"@, a_attrs) + escape_html(c.content@) + close_text("a"@)
        },
        NodeValue::Citation(c) => out + open_text("sup"@, attr_views(node.attrs@))
            + spec_citation_html(
            matches_at(c.citation.source@, "http"@, 0),
            c.citation.source@,
            c.citation.index as int,
            c.open_link_in_new_tab,
        ) + close_text("sup"@),
        NodeValue::Nl2Br(_) => cr_text(out + self_close_text("br"@, Seq::empty(), xhtml)),
        NodeValue::MathInline(m) => out + spec_math_render(m.math@, false),
        NodeValue::MathDisplay(m) => out + spec_math_render(m.math@, true),
        NodeValue::Placeholder(_) => out,
    }
}

/// The output after rendering each node of `nodes` in order.
pub open spec fn render_seq(out: Seq<char>, nodes: Seq<Node>, xhtml: bool) -> Seq<char>
    decreases nodes, 0int,
{
    if nodes.len() == 0 {
        out
    } else {
        render_seq(render_of(out, nodes[0], xhtml), nodes.drop_first(), xhtml)
    }
}

proof fn lemma_render_seq_snoc(out: Seq<char>, nodes: Seq<Node>, n: Node, xhtml: bool)
    ensures
        render_seq(out, nodes.push(n), xhtml) == render_of(
            render_seq(out, nodes, xhtml),
            n,
            xhtml,
        ),
    decreases nodes.len(),
{
    if nodes.len() == 0 {
        assert(nodes.push(n)[0] == n);
        assert(nodes.push(n).drop_first() =~= Seq::<Node>::empty());
        assert(render_seq(out, nodes, xhtml) == out);
        assert(render_seq(render_of(out, n, xhtml), Seq::<Node>::empty(), xhtml) == render_of(
            out,
            n,
            xhtml,
        ));
    } else {
        lemma_render_seq_snoc(render_of(out, nodes[0], xhtml), nodes.drop_first(), n, xhtml);
        assert(nodes.push(n)[0] == nodes[0]);
        assert(nodes.push(n).drop_first() =~= nodes.drop_first().push(n));
    }
}

/// Rendering depends only on a node's mathematical content: two nodes
/// with the same model render identically, against any prior output and
/// in either tag mode.
#[verifier::rlimit(100)]
pub proof fn lemma_render_respects_model(out: Seq<char>, n1: Node, n2: Node, xhtml: bool)
    requires
        n1.to_model() == n2.to_model(),
    ensures
        render_of(out, n1, xhtml) == render_of(out, n2, xhtml),
    decreases n1, 1int,
{
    assert(value_model(n1.value) == value_model(n2.value));
    assert(attr_views(n1.attrs@) == attr_views(n2.attrs@));
    assert(seq_model(n1.children@) == seq_model(n2.children@));
    lemma_render_seq_respects_model(out, n1.children@, n2.children@, xhtml);
    match n1.value {
        NodeValue::Root(_) => {
        },
        NodeValue::Text(t) => {
        },
        NodeValue::Paragraph(_) => {
            lemma_render_seq_respects_model(cr_text(out), n1.children@, n2.children@, xhtml);
        },
        NodeValue::CodeFence(f) => {
        },
        NodeValue::InkjetCodeFence(f) => {
        },
        NodeValue::FrontMatter(_) => {
        },
        NodeValue::FootnoteReference(r) => {
        },
        NodeValue::FootnoteDefinition(d) => {
            let li_attrs = match d.def_id {
                Some(id) => attr_views(n1.attrs@).push(
                    ("id"@, seq!['f', 'n'] + spec_decimal(id as int)),
                ).push(("class"@, "footnote-item"@)),
                None => attr_views(n1.attrs@).push(("class"@, "footnote-item"@)),
            };
            lemma_render_seq_respects_model(
                cr_text(out) + open_text("li"@, li_attrs),
                n1.children@,
                n2.children@,
                xhtml,
            );
        },
        NodeValue::InlineFootnote(_) => {
        },
        NodeValue::FootnotesContainer(_) => {
            let section_attrs = attr_views(n1.attrs@).push(("class"@, "footnotes"@));
            let s1 = cr_text(out) + self_close_text(
                "hr"@,
                seq![("class"@, "footnotes-sep"@)],
                xhtml,
            );
            let s2 = cr_text(s1) + open_text("section"@, section_attrs);
            let s3 = cr_text(s2) + open_text("ol"@, seq![("class"@, "footnotes-list"@)]);
            lemma_render_seq_respects_model(cr_text(s3), n1.children@, n2.children@, xhtml);
        },
        NodeValue::ContactInfo(c) => {
        },
        NodeValue::Citation(c) => {
        },
        NodeValue::Nl2Br(_) => {
        },
        NodeValue::MathInline(m) => {
        },
        NodeValue::MathDisplay(m) => {
        },
        NodeValue::Placeholder(_) => {
        },
    }
}

proof fn lemma_render_seq_respects_model(
    out: Seq<char>,
    s1: Seq<Node>,
    s2: Seq<Node>,
    xhtml: bool,
)
    requires
        seq_model(s1) == seq_model(s2),
    ensures
        render_seq(out, s1, xhtml) == render_seq(out, s2, xhtml),
    decreases s1, 0int,
{
    crate::node::lemma_seq_model_len(s1);
    crate::node::lemma_seq_model_len(s2);
    if s1.len() > 0 {
        crate::node::lemma_seq_model_index(s1, 0);
        crate::node::lemma_seq_model_index(s2, 0);
        lemma_render_respects_model(out, s1[0], s2[0], xhtml);
        crate::node::lemma_seq_model_skip(s1, 1);
        crate::node::lemma_seq_model_skip(s2, 1);
        assert(s1.drop_first() =~= s1.skip(1));
        assert(s2.drop_first() =~= s2.skip(1));
        assert(seq_model(s1.drop_first()) == seq_model(s2.drop_first()));
        lemma_render_seq_respects_model(
            render_of(out, s1[0], xhtml),
            s1.drop_first(),
            s2.drop_first(),
            xhtml,
        );
    }
}

/// Output determinism: any two trees with the composed parsing model of
/// the same source and configuration render to the same bytes, so the
/// whole pipeline's output is a function of (source, configuration, tag
/// mode).
pub proof fn lemma_output_deterministic(
    md: crate::parser::MarkdownIt,
    src: Seq<char>,
    t1: Node,
    t2: Node,
    xhtml: bool,
)
    requires
        t1.to_model() == (NodeModel {
            value: ValueModel::Root,
            attrs: Seq::empty(),
            children: crate::parser::spec_parse_models(md, src),
        }),
        t2.to_model() == (NodeModel {
            value: ValueModel::Root,
            attrs: Seq::empty(),
            children: crate::parser::spec_parse_models(md, src),
        }),
    ensures
        render_of(Seq::empty(), t1, xhtml) == render_of(Seq::empty(), t2, xhtml),
{
    lemma_render_respects_model(Seq::empty(), t1, t2, xhtml);
}

/// The output sink.
pub struct Renderer {
    out: String,
    xhtml: bool,
}

impl Renderer {
    /// Everything emitted so far.
    pub closed spec fn output(self) -> Seq<char> {
        self.out@
    }

    /// Whether self-closing tags carry a trailing slash.
    pub closed spec fn is_xhtml(self) -> bool {
        self.xhtml
    }

    /// An empty sink.
    pub fn new(xhtml: bool) -> (r: Renderer)
        ensures
            r.output() == Seq::<char>::empty(),
            r.is_xhtml() == xhtml,
    {
        Renderer { out: String::new(), xhtml }
    }

    /// Hands the accumulated output over.
    pub fn into_string(self) -> (s: String)
        ensures
            s@ == self.output(),
    {
        self.out
    }

    fn push_attrs(&mut self, attrs: &Vec<(String, String)>)
        ensures
            final(self).out@ == old(self).out@ + attrs_text(attr_views(attrs@)),
            final(self).xhtml == old(self).xhtml,
    {
        let n = attrs.len();
        let mut i: usize = 0;
        proof {
            assert(attr_views(attrs@).subrange(0, 0) =~= Seq::<(Seq<char>, Seq<char>)>::empty());
            assert(self.out@ + attrs_text(Seq::<(Seq<char>, Seq<char>)>::empty()) =~= self.out@);
        }
        while i < n
            invariant
                i <= n,
                n == attrs@.len(),
                self.xhtml == old(self).xhtml,
                self.out@ == old(self).out@ + attrs_text(
                    attr_views(attrs@).subrange(0, i as int),
                ),
            decreases n - i,
        {
            let ghost prefix = attr_views(attrs@).subrange(0, i as int);
            let ghost p = attr_views(attrs@)[i as int];
            crate::text::push_char(&mut self.out, ' ');
            self.out.append(attrs[i].0.as_str());
            self.out.append("=\"");
            push_escaped(attrs[i].1.as_str(), &mut self.out);
            crate::text::push_char(&mut self.out, '"');
            proof {
                reveal_strlit("=\"");
                assert("=\""@ =~= seq!['=', '"']);
                lemma_attrs_text_snoc(prefix, p);
                assert(prefix.push(p) =~= attr_views(attrs@).subrange(0, i + 1));
                assert(self.out@ =~= old(self).out@ + attrs_text(
                    attr_views(attrs@).subrange(0, i + 1),
                ));
            }
            i = i + 1;
        }
        proof {
            assert(attr_views(attrs@).subrange(0, n as int) =~= attr_views(attrs@));
        }
    }

    /// Emits an opening tag with its attributes.
    pub fn open(&mut self, tag: &str, attrs: &Vec<(String, String)>)
        ensures
            final(self).output() == old(self).output() + open_text(tag@, attr_views(attrs@)),
            final(self).is_xhtml() == old(self).is_xhtml(),
    {
        crate::text::push_char(&mut self.out, '<');
        self.out.append(tag);
        self.push_attrs(attrs);
        crate::text::push_char(&mut self.out, '>');
        proof {
            assert(self.out@ =~= old(self).out@ + open_text(tag@, attr_views(attrs@)));
        }
    }

    /// Emits a closing tag.
    pub fn close(&mut self, tag: &str)
        ensures
            final(self).output() == old(self).output() + close_text(tag@),
            final(self).is_xhtml() == old(self).is_xhtml(),
    {
        crate::text::push_char(&mut self.out, '<');
        crate::text::push_char(&mut self.out, '/');
        self.out.append(tag);
        crate::text::push_char(&mut self.out, '>');
        proof {
            assert(self.out@ =~= old(self).out@ + close_text(tag@));
        }
    }

    /// Emits a self-closing tag; in xhtml mode it ends with ` />`.
    pub fn self_close(&mut self, tag: &str, attrs: &Vec<(String, String)>)
        ensures
            final(self).output() == old(self).output() + self_close_text(
                tag@,
                attr_views(attrs@),
                old(self).is_xhtml(),
            ),
            final(self).is_xhtml() == old(self).is_xhtml(),
    {
        crate::text::push_char(&mut self.out, '<');
        self.out.append(tag);
        self.push_attrs(attrs);
        if self.xhtml {
            crate::text::push_char(&mut self.out, ' ');
            crate::text::push_char(&mut self.out, '/');
        }
        crate::text::push_char(&mut self.out, '>');
        proof {
            assert(self.out@ =~= old(self).out@ + self_close_text(
                tag@,
                attr_views(attrs@),
                old(self).is_xhtml(),
            ));
        }
    }

    /// Emits character data, escaping markup-significant characters.
    pub fn text(&mut self, content: &str)
        ensures
            final(self).output() == old(self).output() + escape_html(content@),
            final(self).is_xhtml() == old(self).is_xhtml(),
    {
        push_escaped(content, &mut self.out);
    }

    /// Emits pre-rendered output as it is, with no escaping.
    pub fn text_raw(&mut self, content: &str)
        ensures
            final(self).output() == old(self).output() + content@,
            final(self).is_xhtml() == old(self).is_xhtml(),
    {
        self.out.append(content);
    }

    /// Emits a newline unless the last emitted character already is one.
    pub fn cr(&mut self)
        ensures
            final(self).output() == cr_text(old(self).output()),
            final(self).is_xhtml() == old(self).is_xhtml(),
    {
        let n = self.out.as_str().unicode_len();
        if n == 0 {
            return ;
        }
        let last = self.out.as_str().get_char(n - 1);
        if last != '\n' {
            crate::text::push_char(&mut self.out, '\n');
        }
    }

    /// Renders each node of `children` in order through this sink.
    pub fn contents(&mut self, children: &Vec<Node>)
        ensures
            final(self).output() == render_seq(
                old(self).output(),
                children@,
                old(self).is_xhtml(),
            ),
            final(self).is_xhtml() == old(self).is_xhtml(),
        decreases children@, 0int,
    {
        let n = children.len();
        let mut i: usize = 0;
        proof {
            assert(children@.skip(0) =~= children@);
        }
        while i < n
            invariant
                i <= n,
                n == children@.len(),
                self.xhtml == old(self).xhtml,
                render_seq(self.out@, children@.skip(i as int), self.xhtml) == render_seq(
                    old(self).out@,
                    children@,
                    old(self).xhtml,
                ),
            decreases n - i,
        {
            proof {
                assert(children@.skip(i as int)[0] == children@[i as int]);
                assert(children@.skip(i as int).drop_first() =~= children@.skip(i + 1));
                assert(decreases_to!(children@ => children@[i as int]));
            }
            self.render_node(&children[i]);
            i = i + 1;
        }
        proof {
            assert(children@.skip(n as int) =~= Seq::<Node>::empty());
        }
    }

    /// Renders one node: dispatches on the payload, which fully determines
    /// the output.
    #[verifier::rlimit(100)]
    pub fn render_node(&mut self, node: &Node)
        ensures
            final(self).output() == render_of(old(self).output(), *node, old(self).is_xhtml()),
            final(self).is_xhtml() == old(self).is_xhtml(),
        decreases *node, 1int,
    {
        match &node.value {
            NodeValue::Root(_) => {
                proof {
                    assert(decreases_to!(*node => node.children));
                }
                self.contents(&node.children);
            },
            NodeValue::Text(t) => {
                self.text(t.content.as_str());
            },
            NodeValue::Paragraph(_) => {
                self.cr();
                proof {
                    assert(decreases_to!(*node => node.children));
                }
                self.contents(&node.children);
                self.cr();
            },
            NodeValue::CodeFence(f) => {
                let lang = fence_lang(f.info.as_str());
                self.cr();
                let mut div_attrs: Vec<(String, String)> = Vec::new();
                div_attrs.push((String::from_str("class"), String::from_str("codehilite")));
                let mut span_attrs: Vec<(String, String)> = Vec::new();
                span_attrs.push((String::from_str("class"), String::from_str("filename")));
                let empty_attrs: Vec<(String, String)> = Vec::new();
                proof {
                    assert(attr_views(div_attrs@) =~= seq![("class"@, "codehilite"@)]);
                    assert(attr_views(span_attrs@) =~= seq![("class"@, "filename"@)]);
                    assert(attr_views(empty_attrs@) =~= Seq::<(Seq<char>, Seq<char>)>::empty());
                }
                self.open("div", &div_attrs);
                self.open("span", &span_attrs);
                self.text(lang.as_str());
                self.close("span");
                self.open("pre", &empty_attrs);
                self.open("span", &empty_attrs);
                self.close("span");
                self.open("code", &empty_attrs);
                self.text(f.content.as_str());
                self.close("code");
                self.close("pre");
                self.close("div");
                self.cr();
                proof {
                    assert(self.out@ =~= render_of(
                        old(self).out@,
                        *node,
                        old(self).xhtml,
                    ));
                }
            },
            NodeValue::InkjetCodeFence(f) => {
                let markup = inkjet_markup(f.info.as_str(), f.content.as_str());
                self.cr();
                self.text_raw(markup.as_str());
                self.cr();
            },
            NodeValue::FrontMatter(_) => {
            },
            NodeValue::FootnoteReference(r) => {
                let mut sup_attrs = clone_attrs(&node.attrs);
                sup_attrs.push((String::from_str("class"), String::from_str("footnote-ref")));
                let mut href = String::from_str("#fn");
                push_decimal(r.def_id as u64, &mut href);
                let mut id = String::from_str("fnref");
                push_decimal(r.ref_id as u64, &mut id);
                let mut a_attrs: Vec<(String, String)> = Vec::new();
                a_attrs.push((String::from_str("href"), href));
                a_attrs.push((String::from_str("id"), id));
                let mut label = String::from_str("[");
                push_decimal(r.def_id as u64, &mut label);
                label.append("]");
                proof {
                    reveal_strlit("#fn");
                    reveal_strlit("fnref");
                    reveal_strlit("[");
                    reveal_strlit("]");
                    assert("#fn"@ =~= seq!['#', 'f', 'n']);
                    assert("fnref"@ =~= seq!['f', 'n', 'r', 'e', 'f']);
                    assert("["@ =~= seq!['[']);
                    assert("]"@ =~= seq![']']);
                    assert(attr_views(sup_attrs@) =~= attr_views(node.attrs@).push(
                        ("class"@, "footnote-ref"@),
                    ));
                    assert(attr_views(a_attrs@) =~= seq![
                        ("href"@, seq!['#', 'f', 'n'] + spec_decimal(r.def_id as int)),
                        ("id"@, seq!['f', 'n', 'r', 'e', 'f'] + spec_decimal(r.ref_id as int)),
                    ]);
                    assert(label@ =~= seq!['['] + spec_decimal(r.def_id as int) + seq![']']);
                }
                self.open("sup", &sup_attrs);
                self.open("a", &a_attrs);
                self.text(label.as_str());
                self.close("a");
                self.close("sup");
                proof {
                    assert(self.out@ =~= render_of(old(self).out@, *node, old(self).xhtml));
                }
            },
            NodeValue::FootnoteDefinition(d) => {
                let mut li_attrs = clone_attrs(&node.attrs);
                match d.def_id {
                    Some(id) => {
                        let mut idv = String::from_str("fn");
                        push_decimal(id as u64, &mut idv);
                        proof {
                            reveal_strlit("fn");
                            assert("fn"@ =~= seq!['f', 'n']);
                        }
                        li_attrs.push((String::from_str("id"), idv));
                    },
                    None => {
                    },
                }
                li_attrs.push((String::from_str("class"), String::from_str("footnote-item")));
                proof {
                    match d.def_id {
                        Some(id) => {
                            assert(attr_views(li_attrs@) =~= attr_views(node.attrs@).push(
                                ("id"@, seq!['f', 'n'] + spec_decimal(id as int)),
                            ).push(("class"@, "footnote-item"@)));
                        },
                        None => {
                            assert(attr_views(li_attrs@) =~= attr_views(node.attrs@).push(
                                ("class"@, "footnote-item"@),
                            ));
                        },
                    }
                }
                self.cr();
                self.open("li", &li_attrs);
                proof {
                    assert(decreases_to!(*node => node.children));
                }
                self.contents(&node.children);
                self.close("li");
                self.cr();
                proof {
                    assert(self.out@ =~= render_of(old(self).out@, *node, old(self).xhtml));
                }
            },
            NodeValue::InlineFootnote(_) => {
                proof {
                    assert(decreases_to!(*node => node.children));
                }
                self.contents(&node.children);
            },
            NodeValue::FootnotesContainer(_) => {
                let mut section_attrs = clone_attrs(&node.attrs);
                section_attrs.push((String::from_str("class"), String::from_str("footnotes")));
                let mut hr_attrs: Vec<(String, String)> = Vec::new();
                hr_attrs.push((String::from_str("class"), String::from_str("footnotes-sep")));
                let mut ol_attrs: Vec<(String, String)> = Vec::new();
                ol_attrs.push((String::from_str("class"), String::from_str("footnotes-list")));
                proof {
                    assert(attr_views(section_attrs@) =~= attr_views(node.attrs@).push(
                        ("class"@, "footnotes"@),
                    ));
                    assert(attr_views(hr_attrs@) =~= seq![("class"@, "footnotes-sep"@)]);
                    assert(attr_views(ol_attrs@) =~= seq![("class"@, "footnotes-list"@)]);
                }
                self.cr();
                self.self_close("hr", &hr_attrs);
                self.cr();
                self.open("section", &section_attrs);
                self.cr();
                self.open("ol", &ol_attrs);
                self.cr();
                proof {
                    assert(decreases_to!(*node => node.children));
                }
                self.contents(&node.children);
                self.cr();
                self.close("ol");
                self.cr();
                self.close("section");
                self.cr();
                proof {
                    assert(self.out@ =~= render_of(old(self).out@, *node, old(self).xhtml));
                }
            },
            NodeValue::ContactInfo(c) => {
                let mut a_attrs = clone_attrs(&node.attrs);
                let mut href = c.prefix.clone();
                match c.info_type {
                    ContactInfoType::Email => {
                        href.append(c.content.as_str());
                    },
                    ContactInfoType::Phone => {
                        let cleaned = phone_clean(c.content.as_str());
                        href.append(cleaned.as_str());
                    },
                }
                a_attrs.push((String::from_str("href"), href));
                proof {
                    match c.info_type {
                        ContactInfoType::Email => {
                            assert(attr_views(a_attrs@) =~= attr_views(node.attrs@).push(
                                ("href"@, c.prefix@ + c.content@),
                            ));
                        },
                        ContactInfoType::Phone => {
                            assert(attr_views(a_attrs@) =~= attr_views(node.attrs@).push(
                                ("href"@, c.prefix@ + spec_phone_clean(c.content@)),
                            ));
                        },
                    }
                }
                self.open("a", &a_attrs);
                self.text(c.content.as_str());
                self.close("a");
                proof {
                    assert(self.out@ =~= render_of(old(self).out@, *node, old(self).xhtml));
                }
            },
            NodeValue::Citation(c) => {
                let is_url = check_match_at(c.citation.source.as_str(), "http", 0);
                let html = citation_to_html(
                    is_url,
                    c.citation.source.as_str(),
                    c.citation.index,
                    c.open_link_in_new_tab,
                );
                let attrs = clone_attrs(&node.attrs);
                self.open("sup", &attrs);
                self.text_raw(html.as_str());
                self.close("sup");
                proof {
                    assert(self.out@ =~= render_of(old(self).out@, *node, old(self).xhtml));
                }
            },
            NodeValue::Nl2Br(_) => {
                let empty_attrs: Vec<(String, String)> = Vec::new();
                proof {
                    assert(attr_views(empty_attrs@) =~= Seq::<(Seq<char>, Seq<char>)>::empty());
                }
                self.self_close("br", &empty_attrs);
                self.cr();
            },
            NodeValue::MathInline(m) => {
                let rendered = math_render(m.math.clone(), false);
                self.text_raw(rendered.as_str());
            },
            NodeValue::MathDisplay(m) => {
                let rendered = math_render(m.math.clone(), true);
                self.text_raw(rendered.as_str());
            },
            NodeValue::Placeholder(_) => {
            },
        }
    }
}

impl Node {
    /// Renders the tree into output markup; self-closing tags do not carry
    /// a trailing slash.
    pub fn render(&self) -> (s: String)
        ensures
            s@ == render_of(Seq::<char>::empty(), *self, false),
    {
        let mut fmt = Renderer::new(false);
        fmt.render_node(self);
        fmt.into_string()
    }

    /// Renders the tree into output markup with self-closing tags carrying
    /// a trailing slash, as in `<br />`.
    pub fn xrender(&self) -> (s: String)
        ensures
            s@ == render_of(Seq::<char>::empty(), *self, true),
    {
        let mut fmt = Renderer::new(true);
        fmt.render_node(self);
        fmt.into_string()
    }
}

} // verus!
