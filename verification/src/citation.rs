//! Citation markers: `【N】` spans that cite an entry of the parser's
//! citation list by index.
use crate::extset::ExtSet;
use crate::node::Node;
use crate::node::NodeValue;
use crate::parser::InlineRuleName;
use crate::parser::MarkdownIt;
use crate::text::is_digit_char;
use crate::text::lemma_find_char_props;
use crate::text::matches_at;
use crate::text::push_char;
use crate::text::push_decimal;
use crate::text::spec_decimal;
use crate::text::spec_find_char;
use crate::text::check_match_at;
use crate::text::find_char_from;
use vstd::prelude::*;
use vstd::string::*;

verus! {

/// One citation entry: what the host knows about a cited source.
#[derive(Clone)]
pub struct CitationQM {
    pub index: usize,
    pub title: String,
    pub source: String,
    pub passage: String,
    pub md_offset: usize,
}

/// Parser-scoped settings for citations: the cited entries, in marker
/// index order, and whether citation links open in a new tab.
pub struct CitationSettings {
    pub citations: Vec<CitationQM>,
    pub open_links_in_new_tab: bool,
}

impl Default for CitationSettings {
    /// No citations, links opening in a new tab.
    fn default() -> (r: CitationSettings)
        ensures
            r.citations@.len() == 0,
            r.open_links_in_new_tab,
    {
        CitationSettings { citations: Vec::new(), open_links_in_new_tab: true }
    }
}

/// AST node for a citation.
pub struct CitationNode {
    pub citation: CitationQM,
    pub open_link_in_new_tab: bool,
}

/// Copies one citation entry field by field.
fn clone_qm(q: &CitationQM) -> (r: CitationQM)
    ensures
        r == *q,
{
    CitationQM {
        index: q.index,
        title: q.title.clone(),
        source: q.source.clone(),
        passage: q.passage.clone(),
        md_offset: q.md_offset,
    }
}

/// The numeric value of a digit character.
pub open spec fn spec_digit_val(c: char) -> int {
    if c == '0' { 0 }
    else if c == '1' { 1 }
    else if c == '2' { 2 }
    else if c == '3' { 3 }
    else if c == '4' { 4 }
    else if c == '5' { 5 }
    else if c == '6' { 6 }
    else if c == '7' { 7 }
    else if c == '8' { 8 }
    else { 9 }
}

/// The value of a digit string, most significant digit first.
pub open spec fn spec_digits_val(s: Seq<char>) -> int
    decreases s.len(),
{
    if s.len() == 0 {
        0
    } else {
        spec_digits_val(s.drop_last()) * 10 + spec_digit_val(s[s.len() - 1])
    }
}

proof fn lemma_digits_val_nonneg(s: Seq<char>)
    ensures
        spec_digits_val(s) >= 0,
    decreases s.len(),
{
    if s.len() > 0 {
        lemma_digits_val_nonneg(s.drop_last());
    }
}

proof fn lemma_digits_val_prefix(s: Seq<char>, k: int)
    requires
        0 <= k <= s.len(),
    ensures
        spec_digits_val(s) >= spec_digits_val(s.take(k)),
    decreases s.len() - k,
{
    if k < s.len() {
        lemma_digits_val_prefix(s, k + 1);
        let t = s.take(k + 1);
        assert(t.drop_last() =~= s.take(k));
        assert(t[t.len() - 1] == s[k]);
        lemma_digits_val_nonneg(s.take(k));
        assert(spec_digits_val(s.take(k + 1)) >= spec_digits_val(s.take(k)));
    } else {
        assert(s.take(k) =~= s);
    }
}

proof fn lemma_parse_none_nondigit(s: Seq<char>, j: int)
    requires
        0 <= j < spec_parse_body(s).len(),
        !is_digit_char(spec_parse_body(s)[j]),
    ensures
        spec_parse_usize(s) is None,
{
}

/// The digits of a number string, after any leading plus sign.
pub open spec fn spec_parse_body(s: Seq<char>) -> Seq<char> {
    if s.len() > 0 && s[0] == '+' {
        s.drop_first()
    } else {
        s
    }
}

/// What parsing an unsigned decimal number yields: an optional leading
/// plus sign, then one or more digits whose value fits a machine word.
pub open spec fn spec_parse_usize(s: Seq<char>) -> Option<int> {
    let t = spec_parse_body(s);
    if t.len() == 0 || !(forall|i: int| 0 <= i < t.len() ==> is_digit_char(#[trigger] t[i])) {
        None
    } else if spec_digits_val(t) <= usize::MAX {
        Some(spec_digits_val(t))
    } else {
        None
    }
}

/// Parses an unsigned decimal number, rejecting values that overflow.
pub fn parse_usize_str(s: &str) -> (r: Option<usize>)
    ensures
        match r {
            Some(v) => spec_parse_usize(s@) == Some(v as int),
            None => spec_parse_usize(s@) is None,
        },
{
    let n = s.unicode_len();
    let start: usize = if n > 0 && s.get_char(0) == '+' {
        1
    } else {
        0
    };
    let ghost t = spec_parse_body(s@);
    proof {
        assert(t =~= s@.subrange(start as int, n as int));
    }
    if start >= n {
        proof {
            assert(t.len() == 0);
        }
        return None;
    }
    let mut acc: usize = 0;
    let mut i = start;
    proof {
        assert(t.take(0) =~= Seq::<char>::empty());
    }
    while i < n
        invariant
            start <= i <= n,
            n == s@.len(),
            start <= 1,
            t == s@.subrange(start as int, n as int),
            t == spec_parse_body(s@),
            acc == spec_digits_val(t.take(i - start)),
            forall|j: int| 0 <= j < i - start ==> is_digit_char(#[trigger] t[j]),
        decreases n - i,
    {
        let c = s.get_char(i);
        if !('0' <= c && c <= '9') {
            proof {
                assert(t[i - start] == s@[i as int]);
                assert(t.len() == n - start);
                assert(!is_digit_char(t[i - start]));
                lemma_parse_none_nondigit(s@, i - start);
            }
            return None;
        }
        let d: usize = digit_value(c);
        if acc > (usize::MAX - d) / 10 {
            proof {
                assert(t[i - start] == s@[i as int]);
                assert(t.take(i - start + 1).drop_last() =~= t.take(i - start));
                assert(t.take(i - start + 1)[i - start] == t[i - start]);
                assert(spec_digits_val(t.take(i - start + 1)) == acc * 10 + d);
                assert(acc * 10 + d > usize::MAX) by (nonlinear_arith)
                    requires
                        acc > (usize::MAX - d) / 10,
                        d <= 9,
                        acc >= 0,
                {
                }
                lemma_digits_val_prefix(t, i - start + 1);
                assert(spec_digits_val(t) > usize::MAX);
                assert(spec_parse_usize(s@) is None);
            }
            return None;
        }
        proof {
            assert(acc * 10 + d <= usize::MAX) by (nonlinear_arith)
                requires
                    acc <= (usize::MAX - d) / 10,
                    d <= 9,
                    acc >= 0,
            {
            }
            assert(t[i - start] == s@[i as int]);
            assert(t.take(i - start + 1).drop_last() =~= t.take(i - start));
            assert(t.take(i - start + 1)[i - start] == t[i - start]);
        }
        acc = acc * 10 + d;
        i = i + 1;
    }
    proof {
        assert(t.take(n - start) =~= t);
        assert(spec_parse_usize(s@) == Some(acc as int));
    }
    Some(acc)
}

fn digit_value(c: char) -> (d: usize)
    requires
        is_digit_char(c),
    ensures
        d == spec_digit_val(c),
        d <= 9,
{
    if c == '0' { 0 }
    else if c == '1' { 1 }
    else if c == '2' { 2 }
    else if c == '3' { 3 }
    else if c == '4' { 4 }
    else if c == '5' { 5 }
    else if c == '6' { 6 }
    else if c == '7' { 7 }
    else if c == '8' { 8 }
    else { 9 }
}

/// The anchor markup a citation renders to: a link to the source when the
/// source is a URL (optionally opening in a new tab), else a bare anchor;
/// the link text is the citation index.
pub open spec fn spec_citation_html(
    is_url: bool,
    source: Seq<char>,
    index: int,
    new_tab: bool,
) -> Seq<char> {
    if is_url {
        "<a href=\""@ + source + "\""@ + (if new_tab {
            " target=\"_blank\""@
        } else {
            Seq::empty()
        }) + ">"@ + spec_decimal(index) + "</a>"@
    } else {
        "<a>"@ + spec_decimal(index) + "</a>"@
    }
}

/// Builds the anchor markup for a citation.
pub fn citation_to_html(
    is_url_source: bool,
    source: &str,
    index: usize,
    open_in_new_tab: bool,
) -> (r: String)
    ensures
        r@ == spec_citation_html(is_url_source, source@, index as int, open_in_new_tab),
{
    if is_url_source {
        let mut out = String::from_str("<a href=\"");
        out.append(source);
        out.append("\"");
        if open_in_new_tab {
            out.append(" target=\"_blank\"");
        }
        out.append(">");
        push_decimal(index as u64, &mut out);
        out.append("</a>");
        proof {
            assert(out@ =~= spec_citation_html(
                is_url_source,
                source@,
                index as int,
                open_in_new_tab,
            ));
        }
        out
    } else {
        let mut out = String::from_str("<a>");
        push_decimal(index as u64, &mut out);
        out.append("</a>");
        proof {
            assert(out@ =~= spec_citation_html(
                is_url_source,
                source@,
                index as int,
                open_in_new_tab,
            ));
        }
        out
    }
}

/// What a citation scan at `pos` yields: the consumed character count and
/// the marker's index value, when an opening mark is closed before
/// `pos_max` and the text between the marks parses as a number.
pub open spec fn spec_citation_scan(s: Seq<char>, pos: int, pos_max: int) -> Option<(int, int)> {
    if 0 <= pos < pos_max <= s.len() && s[pos] == '\u{3010}' {
        match spec_find_char(s, '\u{3011}', pos, pos_max) {
            Some(e) => match spec_parse_usize(s.subrange(pos + 1, e)) {
                Some(v) => Some((e + 1 - pos, v)),
                None => None,
            },
            None => None,
        }
    } else {
        None
    }
}

/// Matches a citation marker at the current position and resolves its
/// index against the parser's citation list; an index with no entry is no
/// match.
pub fn citation_run(md: &MarkdownIt, src: &str, pos: usize, pos_max: usize) -> (r: Option<
    (Node, usize),
>)
    requires
        pos < pos_max <= src@.len(),
    ensures
        match (spec_citation_scan(src@, pos as int, pos_max as int), md.ext.citations()) {
            (Some((len, idx)), Some(cfg)) => {
                if 0 <= idx < cfg.citations@.len() {
                    r matches Some((n, cnt)) && {
                        &&& cnt == len
                        &&& 1 <= cnt <= pos_max - pos
                        &&& n.children@.len() == 0
                        &&& n.attrs@.len() == 0
                        &&& n.value matches NodeValue::Citation(c) && {
                            &&& c.citation == cfg.citations@[idx]
                            &&& c.open_link_in_new_tab == cfg.open_links_in_new_tab
                        }
                    }
                } else {
                    r is None
                }
            },
            _ => r is None,
        },
{
    if src.get_char(pos) != '\u{3010}' {
        return None;
    }
    let found = find_char_from(src, '\u{3011}', pos, pos_max);
    proof {
        lemma_find_char_props(src@, '\u{3011}', pos as int, pos_max as int);
    }
    let e = match found {
        None => {
            return None;
        },
        Some(e) => e,
    };
    let inner = src.substring_char(pos + 1, e);
    let idx = match parse_usize_str(inner) {
        None => {
            return None;
        },
        Some(v) => v,
    };
    let cfg = match md.ext.get_citations() {
        None => {
            return None;
        },
        Some(cfg) => cfg,
    };
    if idx >= cfg.citations.len() {
        return None;
    }
    let citation = clone_qm(&cfg.citations[idx]);
    let node = Node::new(
        NodeValue::Citation(
            CitationNode { citation, open_link_in_new_tab: cfg.open_links_in_new_tab },
        ),
    );
    Some((node, e + 1 - pos))
}

/// Registers the citation rule and stores its settings on the parser.
pub fn add(md: &mut MarkdownIt, config: CitationSettings)
    requires
        old(md).ext.wf(),
    ensures
        final(md).inline_rules@ == old(md).inline_rules@.push(InlineRuleName::Citation),
        final(md).block_rules@ == old(md).block_rules@,
        final(md).core_rules@ == old(md).core_rules@,
        final(md).ext.wf(),
        final(md).ext.citations() == Some(config),
        final(md).ext.footnotes() == old(md).ext.footnotes(),
        final(md).ext.fence() == old(md).ext.fence(),
{
    md.ext.insert_citations(config);
    md.add_inline_rule(InlineRuleName::Citation);
}

} // verus!
