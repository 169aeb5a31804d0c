//! The block rule engine.
//!
//! A line-oriented scanner: the source is split into lines, and for each
//! line the registered block rules are evaluated in registry order until
//! one produces a node, which consumes a contiguous run of lines.  When
//! no rule matches, the fallback paragraph accumulation applies: it takes
//! consecutive non-blank lines until a blank line or a line some rule
//! claims.  Unclosed constructs are auto-closed at end of document.
use crate::extset::ExtSet;
use crate::fence::spec_fence_header;
use crate::fence::spec_first_fence_close;
use crate::fence::FenceScanner;
use crate::footnote::fm_empty;
use crate::footnote::spec_add_def;
use crate::footnote::FmModel;
use crate::footnote_definitions::spec_def_body_end;
use crate::footnote_definitions::spec_def_cont;
use crate::footnote_definitions::spec_def_syntax;
use crate::front_matter::spec_front_matter;
use crate::inkjet::spec_inkjet_header;
use crate::node::leaf_model;
use crate::node::seq_model;
use crate::node::NodeModel;
use crate::node::ValueModel;
use crate::text::spec_trim;
use crate::footnote_definitions::footnote_def_check;
use crate::footnote_definitions::footnote_def_run;
use crate::front_matter::front_matter_check;
use crate::front_matter::front_matter_run;
use crate::node::Node;
use crate::node::NodeValue;
use crate::node::Paragraph;
use crate::parser::BlockRuleName;
use crate::parser::MarkdownIt;
use crate::text::is_blank_char;
use crate::text::push_char;
use crate::text::spec_find_char;
use crate::text::find_char_from;
use crate::text::trim_str;
use vstd::prelude::*;
use vstd::string::*;

verus! {

/// The lines of `s` from position `from`: maximal runs of characters
/// without a newline; the text after the last newline is a line even when
/// it is empty.
pub open spec fn spec_lines_from(s: Seq<char>, from: int) -> Seq<Seq<char>>
    decreases s.len() - from,
    via spec_lines_from_dec
{
    if 0 <= from <= s.len() {
        match spec_find_char(s, '\n', from, s.len() as int) {
            Some(e) => seq![s.subrange(from, e)] + spec_lines_from(s, e + 1),
            None => seq![s.subrange(from, s.len() as int)],
        }
    } else {
        Seq::empty()
    }
}

#[via_fn]
proof fn spec_lines_from_dec(s: Seq<char>, from: int) {
    if 0 <= from <= s.len() {
        lemma_find_char_in_range(s, '\n', from, s.len() as int);
    }
}

/// The lines of `s`.
pub open spec fn spec_lines(s: Seq<char>) -> Seq<Seq<char>> {
    spec_lines_from(s, 0)
}

proof fn lemma_find_char_in_range(s: Seq<char>, c: char, from: int, to: int)
    requires
        0 <= from <= to <= s.len(),
    ensures
        spec_find_char(s, c, from, to) matches Some(e) ==> from <= e < to,
    decreases to - from,
{
    if from < to && s[from] != c {
        lemma_find_char_in_range(s, c, from + 1, to);
    }
}

/// Splits the source into lines.
pub fn split_lines(src: &str) -> (lines: Vec<String>)
    ensures
        lines@.map_values(|l: String| l@) == spec_lines(src@),
        lines@.len() >= 1,
{
    let n = src.unicode_len();
    let mut lines: Vec<String> = Vec::new();
    let mut start: usize = 0;
    loop
        invariant
            start <= n,
            n == src@.len(),
            spec_lines(src@) == lines@.map_values(|l: String| l@) + spec_lines_from(
                src@,
                start as int,
            ),
        decreases n - start,
    {
        let found = find_char_from(src, '\n', start, n);
        proof {
            lemma_find_char_in_range(src@, '\n', start as int, n as int);
        }
        match found {
            Some(e) => {
                let line = src.substring_char(start, e).to_owned();
                let ghost prev = lines@;
                lines.push(line);
                proof {
                    assert(lines@.map_values(|l: String| l@) =~= prev.map_values(
                        |l: String| l@,
                    ).push(src@.subrange(start as int, e as int)));
                    assert(spec_lines(src@) =~= lines@.map_values(|l: String| l@)
                        + spec_lines_from(src@, e + 1));
                }
                start = e + 1;
            },
            None => {
                let line = src.substring_char(start, n).to_owned();
                let ghost prev = lines@;
                lines.push(line);
                proof {
                    assert(lines@.map_values(|l: String| l@) =~= prev.map_values(
                        |l: String| l@,
                    ).push(src@.subrange(start as int, n as int)));
                    assert(spec_lines_from(src@, start as int) =~= seq![
                        src@.subrange(start as int, n as int),
                    ]);
                    assert(spec_lines(src@) =~= lines@.map_values(|l: String| l@));
                }
                return lines;
            },
        }
    }
}

/// A line consisting only of spaces and tabs (or nothing).
pub open spec fn spec_blank_line(l: Seq<char>) -> bool {
    forall|i: int| 0 <= i < l.len() ==> is_blank_char(l[i])
}

/// Reports whether the line is blank.
pub fn blank_line(l: &String) -> (r: bool)
    ensures
        r == spec_blank_line(l@),
{
    let s = l.as_str();
    let n = s.unicode_len();
    let mut i: usize = 0;
    while i < n
        invariant
            i <= n,
            n == l@.len(),
            s@ == l@,
            forall|j: int| 0 <= j < i ==> is_blank_char(l@[j]),
        decreases n - i,
    {
        let c = s.get_char(i);
        if !(c == ' ' || c == '\t') {
            return false;
        }
        i = i + 1;
    }
    true
}

/// The number of leading spaces of a line.
pub open spec fn spec_indent(l: Seq<char>) -> int
    decreases l.len(),
{
    if l.len() > 0 && l[0] == ' ' {
        1 + spec_indent(l.drop_first())
    } else {
        0
    }
}

proof fn lemma_indent_bounds(l: Seq<char>)
    ensures
        0 <= spec_indent(l) <= l.len(),
        forall|i: int| 0 <= i < spec_indent(l) ==> l[i] == ' ',
        spec_indent(l) < l.len() ==> l[spec_indent(l)] != ' ',
    decreases l.len(),
{
    if l.len() > 0 && l[0] == ' ' {
        lemma_indent_bounds(l.drop_first());
        assert(forall|i: int| 0 <= i < l.drop_first().len() ==> l.drop_first()[i] == l[i + 1]);
        assert forall|i: int| 0 <= i < spec_indent(l) implies l[i] == ' ' by {
            if i > 0 {
                assert(l.drop_first()[i - 1] == ' ');
            }
        }
    }
}

/// Counts the leading spaces of a line.
pub fn line_indent(l: &String) -> (r: usize)
    ensures
        r == spec_indent(l@),
{
    let s = l.as_str();
    let n = s.unicode_len();
    let mut i: usize = 0;
    proof {
        lemma_indent_bounds(l@);
    }
    while i < n && s.get_char(i) == ' '
        invariant
            i <= n,
            n == l@.len(),
            s@ == l@,
            forall|j: int| 0 <= j < i ==> l@[j] == ' ',
            i <= spec_indent(l@),
        decreases n - i,
    {
        i = i + 1;
        proof {
            lemma_indent_bounds(l@);
        }
    }
    proof {
        lemma_indent_bounds(l@);
    }
    i
}

/// The line with up to `indent` leading spaces removed.
pub open spec fn spec_strip_indent(l: Seq<char>, indent: int) -> Seq<char> {
    if spec_indent(l) <= indent {
        l.skip(spec_indent(l))
    } else {
        l.skip(indent)
    }
}

/// Removes up to `indent` leading spaces from the line.
pub fn strip_indent(l: &String, indent: usize) -> (r: String)
    ensures
        r@ == spec_strip_indent(l@, indent as int),
{
    let ind = line_indent(l);
    let cut = if ind <= indent {
        ind
    } else {
        indent
    };
    proof {
        lemma_indent_bounds(l@);
    }
    let s = l.as_str();
    s.substring_char(cut, s.unicode_len()).to_owned()
}

/// The lines `[a, b)`, each with up to `indent` leading spaces removed and
/// followed by a newline.
pub open spec fn spec_join_lines(lines: Seq<Seq<char>>, a: int, b: int, indent: int) -> Seq<char>
    decreases b - a,
{
    if a >= b {
        Seq::empty()
    } else {
        spec_strip_indent(lines[a], indent).push('\n') + spec_join_lines(lines, a + 1, b, indent)
    }
}

/// Joins the lines `[a, b)` with trailing newlines, stripping up to
/// `indent` leading spaces from each.
pub fn join_lines(lines: &Vec<String>, a: usize, b: usize, indent: usize) -> (r: String)
    requires
        a <= b <= lines@.len(),
    ensures
        r@ == spec_join_lines(lines@.map_values(|l: String| l@), a as int, b as int, indent as int),
{
    let ghost views = lines@.map_values(|l: String| l@);
    let mut out = String::new();
    let mut i = a;
    proof {
        assert(out@ + spec_join_lines(views, a as int, b as int, indent as int) =~= spec_join_lines(
            views,
            a as int,
            b as int,
            indent as int,
        ));
    }
    while i < b
        invariant
            a <= i <= b <= lines@.len(),
            views == lines@.map_values(|l: String| l@),
            spec_join_lines(views, a as int, b as int, indent as int) == out@ + spec_join_lines(
                views,
                i as int,
                b as int,
                indent as int,
            ),
        decreases b - i,
    {
        let stripped = strip_indent(&lines[i], indent);
        out.append(stripped.as_str());
        push_char(&mut out, '\n');
        proof {
            assert(views[i as int] == lines@[i as int]@);
            assert(out@ + spec_join_lines(views, i + 1, b as int, indent as int)
                =~= spec_join_lines(views, a as int, b as int, indent as int));
        }
        i = i + 1;
    }
    out
}

/// Whether one registered block rule would claim the line, by syntax
/// alone.
pub open spec fn spec_claims(r: BlockRuleName, md: MarkdownIt, views: Seq<Seq<char>>, line: int) -> bool {
    match r {
        BlockRuleName::FrontMatter => false,
        BlockRuleName::Fence => spec_fence_header(views[line], md.max_indent as int) is Some,
        BlockRuleName::InkjetFence => spec_inkjet_header(views[line], md.max_indent as int)
            is Some,
        BlockRuleName::FootnoteDef => spec_def_syntax(views[line], md.max_indent as int) is Some,
    }
}

/// Whether some registered block rule would claim the line.
pub open spec fn spec_any_claim(
    rules: Seq<BlockRuleName>,
    md: MarkdownIt,
    views: Seq<Seq<char>>,
    line: int,
) -> bool
    decreases rules.len(),
{
    if rules.len() == 0 {
        false
    } else {
        spec_claims(rules[0], md, views, line) || spec_any_claim(rules.drop_first(), md, views, line)
    }
}

/// What one block rule's attempt at `line` yields: the produced node
/// model with its consumed line count when the rule matches, and the
/// footnote state after the attempt.
pub open spec fn spec_block_attempt(
    r: BlockRuleName,
    md: MarkdownIt,
    views: Seq<Seq<char>>,
    line: int,
    fm: Option<FmModel>,
) -> (Option<(NodeModel, int)>, Option<FmModel>) {
    match r {
        BlockRuleName::FrontMatter => (
            if line == 0 {
                match spec_front_matter(views) {
                    Some(j) => Some(
                        (
                            leaf_model(
                                ValueModel::FrontMatter(spec_join_lines(views, 1, j, 0)),
                            ),
                            j + 1,
                        ),
                    ),
                    None => None,
                }
            } else {
                None
            },
            fm,
        ),
        BlockRuleName::Fence => (
            match spec_fence_header(views[line], md.max_indent as int) {
                Some((m, len, params)) => {
                    let close = spec_first_fence_close(views, m, len, md.max_indent as int, line + 1);
                    let end = match close {
                        Some(j) => j,
                        None => views.len() as int,
                    };
                    Some(
                        (
                            leaf_model(
                                ValueModel::CodeFence {
                                    info: params,
                                    marker: m,
                                    marker_len: len as usize,
                                    content: spec_join_lines(
                                        views,
                                        line + 1,
                                        end,
                                        spec_indent(views[line]),
                                    ),
                                    lang_prefix: match md.ext.fence() {
                                        Some(fs) => fs.lang_prefix@,
                                        None => "language-"@,
                                    },
                                },
                            ),
                            match close {
                                Some(j) => j - line + 1,
                                None => views.len() - line,
                            },
                        ),
                    )
                },
                None => None,
            },
            fm,
        ),
        BlockRuleName::InkjetFence => (
            match spec_inkjet_header(views[line], md.max_indent as int) {
                Some((m, len, params)) => {
                    let close = spec_first_fence_close(views, m, len, md.max_indent as int, line + 1);
                    let end = match close {
                        Some(j) => j,
                        None => views.len() as int,
                    };
                    Some(
                        (
                            leaf_model(
                                ValueModel::InkjetFence {
                                    info: params,
                                    marker: m,
                                    marker_len: len as usize,
                                    content: spec_join_lines(
                                        views,
                                        line + 1,
                                        end,
                                        spec_indent(views[line]),
                                    ),
                                    use_pygments: true,
                                },
                            ),
                            match close {
                                Some(j) => j - line + 1,
                                None => views.len() - line,
                            },
                        ),
                    )
                },
                None => None,
            },
            fm,
        ),
        BlockRuleName::FootnoteDef => match spec_def_syntax(views[line], md.max_indent as int) {
            None => (None, fm),
            Some((label, rest)) => {
                let m0 = match fm {
                    Some(m) => m,
                    None => fm_empty(),
                };
                let (m1, res) = spec_add_def(m0, label);
                (
                    match res {
                        Some(id) => {
                            let bend = spec_def_body_end(views, line + 1);
                            Some(
                                (
                                    NodeModel {
                                        value: ValueModel::FootnoteDefinition {
                                            label: Some(label),
                                            def_id: Some(id),
                                            inline: false,
                                        },
                                        attrs: Seq::empty(),
                                        children: seq![
                                            leaf_model(
                                                ValueModel::Paragraph(
                                                    spec_trim(
                                                        rest + seq!['\n'] + spec_join_lines(
                                                            views,
                                                            line + 1,
                                                            bend,
                                                            4,
                                                        ),
                                                    ),
                                                ),
                                            ),
                                        ],
                                    },
                                    bend - line,
                                ),
                            )
                        },
                        None => None,
                    },
                    Some(m1),
                )
            },
        },
    }
}

/// The first matching rule of the block registry at `line`, attempted in
/// registry order, with the footnote state threaded through the failed
/// attempts before it.
pub open spec fn spec_block_try(
    rules: Seq<BlockRuleName>,
    md: MarkdownIt,
    views: Seq<Seq<char>>,
    line: int,
    fm: Option<FmModel>,
) -> (Option<(NodeModel, int)>, Option<FmModel>)
    decreases rules.len(),
{
    if rules.len() == 0 {
        (None, fm)
    } else {
        let (res, fm2) = spec_block_attempt(rules[0], md, views, line, fm);
        match res {
            Some(v) => (Some(v), fm2),
            None => spec_block_try(rules.drop_first(), md, views, line, fm2),
        }
    }
}

/// The first line at or after `j` that ends a paragraph started earlier:
/// the end of the document, a blank line, or a line some registered block
/// rule claims.
pub open spec fn spec_para_end(md: MarkdownIt, views: Seq<Seq<char>>, j: int) -> int
    decreases views.len() - j,
{
    if j < 0 || j >= views.len() {
        views.len() as int
    } else if spec_blank_line(views[j]) || spec_any_claim(md.block_rules@, md, views, j) {
        j
    } else {
        spec_para_end(md, views, j + 1)
    }
}

/// The block scan of the lines from `line` on: for each line the
/// registered block rules are attempted in registry order, a blank line
/// is skipped, and anything else opens a paragraph running to the next
/// blank or claimed line.
pub open spec fn spec_block(
    md: MarkdownIt,
    views: Seq<Seq<char>>,
    line: int,
    fm: Option<FmModel>,
) -> (Seq<NodeModel>, Option<FmModel>)
    decreases views.len() - line,
    via spec_block_dec
{
    if line < 0 || line >= views.len() {
        (Seq::empty(), fm)
    } else if spec_blank_line(views[line]) {
        spec_block(md, views, line + 1, fm)
    } else {
        let (res, fm2) = spec_block_try(md.block_rules@, md, views, line, fm);
        match res {
            Some((nm, cnt)) => {
                let q = if 1 <= cnt <= views.len() - line {
                    line + cnt
                } else {
                    line + 1
                };
                let (rest, fm3) = spec_block(md, views, q, fm2);
                (seq![nm] + rest, fm3)
            },
            None => {
                let end = spec_para_end(md, views, line + 1);
                let para = leaf_model(
                    ValueModel::Paragraph(spec_trim(spec_join_lines(views, line, end, 0))),
                );
                let (rest, fm3) = spec_block(md, views, end, fm2);
                (seq![para] + rest, fm3)
            },
        }
    }
}

#[via_fn]
proof fn spec_block_dec(md: MarkdownIt, views: Seq<Seq<char>>, line: int, fm: Option<FmModel>) {
    if 0 <= line < views.len() && !spec_blank_line(views[line]) {
        lemma_para_end_range(md, views, line + 1);
    }
}

pub proof fn lemma_para_end_range(md: MarkdownIt, views: Seq<Seq<char>>, j: int)
    ensures
        j <= spec_para_end(md, views, j) || views.len() < j,
        spec_para_end(md, views, j) <= views.len(),
    decreases views.len() - j,
{
    if 0 <= j < views.len() && !(spec_blank_line(views[j]) || spec_any_claim(
        md.block_rules@,
        md,
        views,
        j,
    )) {
        lemma_para_end_range(md, views, j + 1);
    }
}

/// The character `c` occurs nowhere in `s`.
pub open spec fn char_free(s: Seq<char>, c: char) -> bool {
    forall|k: int| 0 <= k < s.len() ==> s[k] != c
}

pub proof fn lemma_char_free_lines(s: Seq<char>, c: char, from: int)
    requires
        char_free(s, c),
        0 <= from,
    ensures
        forall|l: int|
            0 <= l < spec_lines_from(s, from).len() ==> char_free(
                #[trigger] spec_lines_from(s, from)[l],
                c,
            ),
    decreases s.len() - from,
{
    if from <= s.len() {
        lemma_find_char_in_range(s, '\n', from, s.len() as int);
        match spec_find_char(s, '\n', from, s.len() as int) {
            Some(e) => {
                lemma_char_free_lines(s, c, e + 1);
                let ls = spec_lines_from(s, from);
                assert forall|l: int| 0 <= l < ls.len() implies char_free(
                    #[trigger] ls[l],
                    c,
                ) by {
                    if l == 0 {
                        assert(forall|k: int|
                            0 <= k < ls[0].len() ==> ls[0][k] == s[from + k]);
                    } else {
                        assert(ls[l] == spec_lines_from(s, e + 1)[l - 1]);
                    }
                }
            },
            None => {
                let ls = spec_lines_from(s, from);
                assert(forall|k: int| 0 <= k < ls[0].len() ==> ls[0][k] == s[from + k]);
            },
        }
    }
}

proof fn lemma_char_free_strip_indent(l: Seq<char>, indent: int, c: char)
    requires
        char_free(l, c),
        0 <= indent,
    ensures
        char_free(spec_strip_indent(l, indent), c),
{
    lemma_indent_bounds(l);
    let t = spec_strip_indent(l, indent);
    if spec_indent(l) <= indent {
        assert(forall|k: int| 0 <= k < t.len() ==> t[k] == l[k + spec_indent(l)]);
    } else {
        assert(forall|k: int| 0 <= k < t.len() ==> t[k] == l[k + indent]);
    }
}

proof fn lemma_char_free_join(lines: Seq<Seq<char>>, a: int, b: int, indent: int, c: char)
    requires
        c != '\n',
        0 <= indent,
        0 <= a,
        b <= lines.len(),
        forall|l: int| 0 <= l < lines.len() ==> char_free(#[trigger] lines[l], c),
    ensures
        char_free(spec_join_lines(lines, a, b, indent), c),
    decreases b - a,
{
    if a < b {
        lemma_char_free_join(lines, a + 1, b, indent, c);
        lemma_char_free_strip_indent(lines[a], indent, c);
        let head = spec_strip_indent(lines[a], indent).push('\n');
        let rest = spec_join_lines(lines, a + 1, b, indent);
        assert(char_free(head, c));
        assert(forall|k: int|
            0 <= k < (head + rest).len() ==> (head + rest)[k] == if k < head.len() {
                head[k]
            } else {
                rest[k - head.len()]
            });
    }
}

proof fn lemma_char_free_trim_start(s: Seq<char>, c: char)
    requires
        char_free(s, c),
    ensures
        char_free(crate::text::spec_trim_start(s), c),
    decreases s.len(),
{
    if s.len() > 0 && crate::text::is_ws_char(s[0]) {
        assert(forall|k: int| 0 <= k < s.drop_first().len() ==> s.drop_first()[k] == s[k + 1]);
        lemma_char_free_trim_start(s.drop_first(), c);
    }
}

proof fn lemma_char_free_trim_end(s: Seq<char>, c: char)
    requires
        char_free(s, c),
    ensures
        char_free(crate::text::spec_trim_end(s), c),
    decreases s.len(),
{
    if s.len() > 0 && crate::text::is_ws_char(s[s.len() - 1]) {
        assert(forall|k: int| 0 <= k < s.drop_last().len() ==> s.drop_last()[k] == s[k]);
        lemma_char_free_trim_end(s.drop_last(), c);
    }
}

proof fn lemma_char_free_trim(s: Seq<char>, c: char)
    requires
        char_free(s, c),
    ensures
        char_free(spec_trim(s), c),
{
    lemma_char_free_trim_start(s, c);
    lemma_char_free_trim_end(crate::text::spec_trim_start(s), c);
}

proof fn lemma_char_free_skip_blank(s: Seq<char>, c: char)
    requires
        char_free(s, c),
    ensures
        char_free(crate::fence::spec_skip_blank(s), c),
    decreases s.len(),
{
    if s.len() > 0 && is_blank_char(s[0]) {
        assert(forall|k: int| 0 <= k < s.drop_first().len() ==> s.drop_first()[k] == s[k + 1]);
        lemma_char_free_skip_blank(s.drop_first(), c);
    }
}

/// The block scan never consults the inline registry: two
/// configurations differing only there produce the same block stage, on
/// every line list and state.
pub proof fn lemma_block_ignores_inline_rules(
    md1: MarkdownIt,
    md2: MarkdownIt,
    views: Seq<Seq<char>>,
    line: int,
    fm: Option<FmModel>,
)
    requires
        crate::inline::same_but_inline(md1, md2),
        md2.block_rules@ == md1.block_rules@,
    ensures
        spec_block(md1, views, line, fm) == spec_block(md2, views, line, fm),
    decreases views.len() - line, 2int,
{
    if 0 <= line < views.len() {
        if spec_blank_line(views[line]) {
            lemma_block_ignores_inline_rules(md1, md2, views, line + 1, fm);
        } else {
            lemma_block_try_ignores_inline(md1.block_rules@, md1, md2, views, line, fm);
            lemma_para_end_ignores_inline(md1, md2, views, line + 1);
            let (res, fm2) = spec_block_try(md1.block_rules@, md1, views, line, fm);
            match res {
                Some((nm, cnt)) => {
                    let q = if 1 <= cnt <= views.len() - line {
                        line + cnt
                    } else {
                        line + 1
                    };
                    lemma_block_ignores_inline_rules(md1, md2, views, q, fm2);
                },
                None => {
                    lemma_para_end_range(md1, views, line + 1);
                    lemma_block_ignores_inline_rules(
                        md1,
                        md2,
                        views,
                        spec_para_end(md1, views, line + 1),
                        fm2,
                    );
                },
            }
        }
    }
}

proof fn lemma_block_try_ignores_inline(
    rules: Seq<BlockRuleName>,
    md1: MarkdownIt,
    md2: MarkdownIt,
    views: Seq<Seq<char>>,
    line: int,
    fm: Option<FmModel>,
)
    requires
        crate::inline::same_but_inline(md1, md2),
    ensures
        spec_block_try(rules, md1, views, line, fm) == spec_block_try(
            rules,
            md2,
            views,
            line,
            fm,
        ),
    decreases rules.len(),
{
    if rules.len() > 0 {
        assert(spec_block_attempt(rules[0], md1, views, line, fm) == spec_block_attempt(
            rules[0],
            md2,
            views,
            line,
            fm,
        ));
        let (res, fm2) = spec_block_attempt(rules[0], md1, views, line, fm);
        match res {
            Some(v) => {
            },
            None => {
                lemma_block_try_ignores_inline(rules.drop_first(), md1, md2, views, line, fm2);
            },
        }
    }
}

proof fn lemma_para_end_ignores_inline(
    md1: MarkdownIt,
    md2: MarkdownIt,
    views: Seq<Seq<char>>,
    j: int,
)
    requires
        crate::inline::same_but_inline(md1, md2),
    ensures
        spec_para_end(md1, views, j) == spec_para_end(md2, views, j),
    decreases views.len() - j,
{
    if 0 <= j < views.len() {
        lemma_any_claim_ignores_inline(md1.block_rules@, md1, md2, views, j);
        if !(spec_blank_line(views[j]) || spec_any_claim(md1.block_rules@, md1, views, j)) {
            lemma_para_end_ignores_inline(md1, md2, views, j + 1);
        }
    }
}

proof fn lemma_any_claim_ignores_inline(
    rules: Seq<BlockRuleName>,
    md1: MarkdownIt,
    md2: MarkdownIt,
    views: Seq<Seq<char>>,
    j: int,
)
    requires
        crate::inline::same_but_inline(md1, md2),
    ensures
        spec_any_claim(rules, md1, views, j) == spec_any_claim(rules, md2, views, j),
    decreases rules.len(),
{
    if rules.len() > 0 {
        lemma_any_claim_ignores_inline(rules.drop_first(), md1, md2, views, j);
    }
}

/// Every node the block scan produces from marker-free lines has
/// marker-free paragraph content: the scan only assembles paragraph text
/// from the lines by de-indenting, joining with newlines and trimming.
pub proof fn lemma_block_paragraphs_free(
    md: MarkdownIt,
    views: Seq<Seq<char>>,
    line: int,
    fm: Option<FmModel>,
    c: char,
)
    requires
        c != '\n',
        forall|l: int| 0 <= l < views.len() ==> char_free(#[trigger] views[l], c),
    ensures
        crate::inline::no_marker_in_paragraphs(spec_block(md, views, line, fm).0, c),
    decreases views.len() - line, 2int,
{
    if line < 0 || line >= views.len() {
        assert(crate::inline::no_marker_in_paragraphs(Seq::<NodeModel>::empty(), c));
    } else if spec_blank_line(views[line]) {
        lemma_block_paragraphs_free(md, views, line + 1, fm, c);
    } else {
        lemma_block_try_paragraph_free(md.block_rules@, md, views, line, fm, c);
        let (res, fm2) = spec_block_try(md.block_rules@, md, views, line, fm);
        match res {
            Some((nm, cnt)) => {
                let q = if 1 <= cnt <= views.len() - line {
                    line + cnt
                } else {
                    line + 1
                };
                lemma_block_paragraphs_free(md, views, q, fm2, c);
                let rest = spec_block(md, views, q, fm2).0;
                assert((seq![nm] + rest)[0] == nm);
                assert((seq![nm] + rest).drop_first() =~= rest);
            },
            None => {
                let end = spec_para_end(md, views, line + 1);
                lemma_para_end_range(md, views, line + 1);
                lemma_block_paragraphs_free(md, views, end, fm2, c);
                lemma_char_free_join(views, line, end, 0, c);
                lemma_char_free_trim(spec_join_lines(views, line, end, 0), c);
                let para = leaf_model(
                    ValueModel::Paragraph(spec_trim(spec_join_lines(views, line, end, 0))),
                );
                assert(crate::inline::no_marker_in_paragraphs(Seq::<NodeModel>::empty(), c));
                assert(crate::inline::no_marker_in_node(para, c));
                let rest = spec_block(md, views, end, fm2).0;
                assert((seq![para] + rest)[0] == para);
                assert((seq![para] + rest).drop_first() =~= rest);
            },
        }
    }
}

proof fn lemma_def_body_end_range(lines: Seq<Seq<char>>, j: int)
    requires
        0 <= j,
    ensures
        spec_def_body_end(lines, j) <= lines.len(),
        j <= spec_def_body_end(lines, j) || lines.len() < j,
    decreases lines.len() - j,
{
    if 0 <= j < lines.len() && spec_def_cont(lines[j]) {
        lemma_def_body_end_range(lines, j + 1);
    }
}

proof fn lemma_block_try_paragraph_free(
    rules: Seq<BlockRuleName>,
    md: MarkdownIt,
    views: Seq<Seq<char>>,
    line: int,
    fm: Option<FmModel>,
    c: char,
)
    requires
        c != '\n',
        0 <= line < views.len(),
        forall|l: int| 0 <= l < views.len() ==> char_free(#[trigger] views[l], c),
    ensures
        spec_block_try(rules, md, views, line, fm).0 matches Some((nm, cnt))
            ==> crate::inline::no_marker_in_node(nm, c),
    decreases rules.len(),
{
    if rules.len() > 0 {
        lemma_attempt_paragraph_free(rules[0], md, views, line, fm, c);
        let (res, fm2) = spec_block_attempt(rules[0], md, views, line, fm);
        match res {
            Some(v) => {
            },
            None => {
                lemma_block_try_paragraph_free(rules.drop_first(), md, views, line, fm2, c);
            },
        }
    }
}

proof fn lemma_attempt_paragraph_free(
    r: BlockRuleName,
    md: MarkdownIt,
    views: Seq<Seq<char>>,
    line: int,
    fm: Option<FmModel>,
    c: char,
)
    requires
        c != '\n',
        0 <= line < views.len(),
        forall|l: int| 0 <= l < views.len() ==> char_free(#[trigger] views[l], c),
    ensures
        spec_block_attempt(r, md, views, line, fm).0 matches Some((nm, cnt))
            ==> crate::inline::no_marker_in_node(nm, c),
{
    assert(crate::inline::no_marker_in_paragraphs(Seq::<NodeModel>::empty(), c));
    match r {
        BlockRuleName::FrontMatter => {
        },
        BlockRuleName::Fence => {
        },
        BlockRuleName::InkjetFence => {
        },
        BlockRuleName::FootnoteDef => {
            match spec_def_syntax(views[line], md.max_indent as int) {
                Some((label, rest)) => {
                    let l = views[line];
                    let ind = spec_indent(l);
                    let b = l.skip(ind);
                    lemma_indent_bounds(l);
                    assert(forall|k: int| 0 <= k < b.len() ==> b[k] == l[k + ind]);
                    assert(char_free(b, c));
                    crate::text::lemma_find_char_props(b, ']', 2, b.len() as int);
                    let e = spec_find_char(b, ']', 2, b.len() as int)->Some_0;
                    assert(rest == crate::fence::spec_skip_blank(b.skip(e + 2)));
                    let bt = b.skip(e + 2);
                    assert(forall|k: int| 0 <= k < bt.len() ==> #[trigger] bt[k] == b[k + e + 2]);
                    assert(char_free(bt, c));
                    lemma_char_free_skip_blank(bt, c);
                    let bend = spec_def_body_end(views, line + 1);
                    lemma_def_body_end_range(views, line + 1);
                    lemma_char_free_join(views, line + 1, bend, 4, c);
                    let content = rest + seq!['\n'] + spec_join_lines(views, line + 1, bend, 4);
                    assert(char_free(content, c));
                    lemma_char_free_trim(content, c);
                    match spec_add_def(
                        match fm {
                            Some(m) => m,
                            None => fm_empty(),
                        },
                        label,
                    ).1 {
                        Some(id) => {
                            let para = leaf_model(ValueModel::Paragraph(spec_trim(content)));
                            assert(crate::inline::no_marker_in_node(para, c));
                            let nm = spec_block_attempt(r, md, views, line, fm).0->Some_0.0;
                            assert(nm.children == seq![para]);
                            assert(nm.children[0] == para);
                            assert(nm.children.drop_first() =~= Seq::<NodeModel>::empty());
                            assert(crate::inline::no_marker_in_node(nm, c));
                        },
                        None => {
                        },
                    }
                },
                None => {
                },
            }
        },
    }
}

/// Whether some registered block rule would claim the line, judged by
/// syntax alone: this is what ends a paragraph early.
fn check_any_rule(md: &MarkdownIt, lines: &Vec<String>, line: usize) -> (r: bool)
    requires
        line < lines@.len(),
    ensures
        r == spec_any_claim(
            md.block_rules@,
            *md,
            lines@.map_values(|l: String| l@),
            line as int,
        ),
{
    let ghost views = lines@.map_values(|l: String| l@);
    let nr = md.block_rules.len();
    let mut ri: usize = 0;
    proof {
        assert(md.block_rules@.skip(0) =~= md.block_rules@);
    }
    while ri < nr
        invariant
            ri <= nr,
            nr == md.block_rules@.len(),
            line < lines@.len(),
            views == lines@.map_values(|l: String| l@),
            spec_any_claim(md.block_rules@, *md, views, line as int) == spec_any_claim(
                md.block_rules@.skip(ri as int),
                *md,
                views,
                line as int,
            ),
        decreases nr - ri,
    {
        proof {
            assert(md.block_rules@.skip(ri as int)[0] == md.block_rules@[ri as int]);
            assert(md.block_rules@.skip(ri as int).drop_first() =~= md.block_rules@.skip(ri + 1));
            assert(views[line as int] == lines@[line as int]@);
        }
        let claimed = match md.block_rules[ri] {
            BlockRuleName::FrontMatter => front_matter_check(lines, line),
            BlockRuleName::Fence => FenceScanner::check(md, lines, line),
            BlockRuleName::InkjetFence => crate::inkjet::InkjetFenceScanner::check(
                md,
                lines,
                line,
            ),
            BlockRuleName::FootnoteDef => footnote_def_check(md, lines, line),
        };
        if claimed {
            return true;
        }
        ri = ri + 1;
    }
    proof {
        assert(md.block_rules@.skip(nr as int) =~= Seq::<BlockRuleName>::empty());
    }
    false
}

/// Builds the top-level block nodes: the produced nodes and the resulting
/// footnote state are exactly what the block-scan model `spec_block`
/// yields for the line list.
#[verifier::rlimit(100)]
pub fn block_parse(md: &MarkdownIt, lines: &Vec<String>, ext: &mut ExtSet) -> (children: Vec<
    Node,
>)
    requires
        old(ext).wf(),
    ensures
        final(ext).wf(),
        final(ext).fence() == old(ext).fence(),
        seq_model(children@) == spec_block(
            *md,
            lines@.map_values(|l: String| l@),
            0,
            old(ext).footnotes_model(),
        ).0,
        final(ext).footnotes_model() == spec_block(
            *md,
            lines@.map_values(|l: String| l@),
            0,
            old(ext).footnotes_model(),
        ).1,
{
    let ghost views = lines@.map_values(|l: String| l@);
    let ghost full = spec_block(*md, views, 0, old(ext).footnotes_model());
    let line_max = lines.len();
    let mut children: Vec<Node> = Vec::new();
    let mut line: usize = 0;
    proof {
        assert(seq_model(children@) =~= Seq::<NodeModel>::empty());
        assert(seq_model(children@) + full.0 =~= full.0);
    }
    while line < line_max
        invariant
            line <= line_max,
            line_max == lines@.len(),
            views == lines@.map_values(|l: String| l@),
            ext.wf(),
            ext.fence() == old(ext).fence(),
            full == spec_block(*md, views, 0, old(ext).footnotes_model()),
            seq_model(children@) + spec_block(
                *md,
                views,
                line as int,
                ext.footnotes_model(),
            ).0 == full.0,
            spec_block(*md, views, line as int, ext.footnotes_model()).1 == full.1,
        decreases line_max - line,
    {
        proof {
            assert(views[line as int] == lines@[line as int]@);
        }
        if blank_line(&lines[line]) {
            proof {
                assert(spec_block(*md, views, line as int, ext.footnotes_model()) == spec_block(
                    *md,
                    views,
                    line + 1,
                    ext.footnotes_model(),
                ));
            }
            line = line + 1;
        } else {
            let ghost fm_entry = ext.footnotes_model();
            let mut result: Option<(Node, usize)> = None;
            let nr = md.block_rules.len();
            let mut ri: usize = 0;
            proof {
                assert(md.block_rules@.skip(0) =~= md.block_rules@);
            }
            loop
                invariant_except_break
                    ri <= nr,
                    nr == md.block_rules@.len(),
                    line < line_max == lines@.len(),
                    views == lines@.map_values(|l: String| l@),
                    ext.wf(),
                    ext.fence() == old(ext).fence(),
                    result is None,
                    spec_block_try(md.block_rules@, *md, views, line as int, fm_entry)
                        == spec_block_try(
                        md.block_rules@.skip(ri as int),
                        *md,
                        views,
                        line as int,
                        ext.footnotes_model(),
                    ),
                ensures
                    line < line_max == lines@.len(),
                    ext.wf(),
                    ext.fence() == old(ext).fence(),
                    match result {
                        Some((n, cnt)) => 1 <= cnt <= line_max - line && spec_block_try(
                            md.block_rules@,
                            *md,
                            views,
                            line as int,
                            fm_entry,
                        ) == (Some((n.to_model(), cnt as int)), ext.footnotes_model()),
                        None => spec_block_try(
                            md.block_rules@,
                            *md,
                            views,
                            line as int,
                            fm_entry,
                        ) == (None::<(NodeModel, int)>, ext.footnotes_model()),
                    },
                decreases nr - ri,
            {
                if ri >= nr {
                    proof {
                        assert(md.block_rules@.skip(ri as int)
                            =~= Seq::<BlockRuleName>::empty());
                    }
                    break ;
                }
                let rule = md.block_rules[ri];
                let ghost rules_sfx = md.block_rules@.skip(ri as int);
                let ghost fm_before = ext.footnotes_model();
                proof {
                    assert(rules_sfx[0] == md.block_rules@[ri as int]);
                    assert(rules_sfx.drop_first() =~= md.block_rules@.skip(ri + 1));
                    assert(views[line as int] == lines@[line as int]@);
                }
                result = match rule {
                    BlockRuleName::FrontMatter => front_matter_run(lines, line),
                    BlockRuleName::Fence => FenceScanner::run(md, lines, line),
                    BlockRuleName::InkjetFence => crate::inkjet::InkjetFenceScanner::run(
                        md,
                        lines,
                        line,
                    ),
                    BlockRuleName::FootnoteDef => footnote_def_run(md, lines, line, ext),
                };
                proof {
                    match rule {
                        BlockRuleName::FrontMatter => {
                            if line == 0 && spec_front_matter(views) is Some {
                                let (n, cnt) = result->Some_0;
                                lemma_block_leaf(n);
                            }
                        },
                        BlockRuleName::Fence => {
                            if spec_fence_header(views[line as int], md.max_indent as int)
                                is Some {
                                let (n, cnt) = result->Some_0;
                                lemma_block_leaf(n);
                            }
                        },
                        BlockRuleName::InkjetFence => {
                            if spec_inkjet_header(views[line as int], md.max_indent as int)
                                is Some {
                                let (n, cnt) = result->Some_0;
                                lemma_block_leaf(n);
                            }
                        },
                        BlockRuleName::FootnoteDef => {
                        },
                    }
                    assert(spec_block_attempt(rule, *md, views, line as int, fm_before) == (
                        match result {
                            Some((n, cnt)) => Some((n.to_model(), cnt as int)),
                            None => None,
                        },
                        ext.footnotes_model(),
                    ));
                }
                if result.is_some() {
                    proof {
                        let (n, cnt) = result->Some_0;
                        assert(spec_block_try(
                            md.block_rules@,
                            *md,
                            views,
                            line as int,
                            fm_entry,
                        ) == (Some((n.to_model(), cnt as int)), ext.footnotes_model()));
                    }
                    break ;
                }
                proof {
                    assert(spec_block_try(
                        rules_sfx,
                        *md,
                        views,
                        line as int,
                        fm_before,
                    ) == spec_block_try(
                        md.block_rules@.skip(ri + 1),
                        *md,
                        views,
                        line as int,
                        ext.footnotes_model(),
                    ));
                }
                ri = ri + 1;
            }
            match result {
                Some((node, cnt)) => {
                    proof {
                        crate::node::lemma_seq_model_push(children@, node);
                        let cur0 = spec_block(*md, views, line as int, fm_entry);
                        let next = spec_block(
                            *md,
                            views,
                            line + cnt,
                            ext.footnotes_model(),
                        );
                        assert(cur0.0 =~= seq![node.to_model()] + next.0);
                        assert(cur0.1 == next.1);
                    }
                    children.push(node);
                    proof {
                        assert(seq_model(children@) + spec_block(
                            *md,
                            views,
                            line + cnt,
                            ext.footnotes_model(),
                        ).0 =~= full.0);
                    }
                    line = line + cnt;
                },
                None => {
                    let mut end = line + 1;
                    proof {
                        lemma_para_end_range(*md, views, line + 1);
                    }
                    while end < line_max && !blank_line(&lines[end]) && !check_any_rule(
                        md,
                        lines,
                        end,
                    )
                        invariant
                            line < end <= line_max == lines@.len(),
                            views == lines@.map_values(|l: String| l@),
                            spec_para_end(*md, views, line + 1) == spec_para_end(
                                *md,
                                views,
                                end as int,
                            ),
                        decreases line_max - end,
                    {
                        proof {
                            assert(views[end as int] == lines@[end as int]@);
                        }
                        end = end + 1;
                    }
                    proof {
                        if end < line_max {
                            assert(views[end as int] == lines@[end as int]@);
                        }
                        assert(spec_para_end(*md, views, end as int) == end);
                    }
                    let joined = join_lines(lines, line, end, 0);
                    let raw = trim_str(joined.as_str());
                    let node = Node::new(NodeValue::Paragraph(Paragraph { raw }));
                    proof {
                        assert(crate::node::attr_model(node.attrs@)
                            =~= Seq::<(Seq<char>, Seq<char>)>::empty());
                        assert(seq_model(node.children@) =~= Seq::<NodeModel>::empty());
                        assert(node.to_model() =~= leaf_model(
                            ValueModel::Paragraph(
                                spec_trim(spec_join_lines(views, line as int, end as int, 0)),
                            ),
                        ));
                        crate::node::lemma_seq_model_push(children@, node);
                        let cur0 = spec_block(*md, views, line as int, fm_entry);
                        let next = spec_block(*md, views, end as int, ext.footnotes_model());
                        assert(cur0.0 =~= seq![node.to_model()] + next.0);
                        assert(cur0.1 == next.1);
                    }
                    children.push(node);
                    proof {
                        assert(seq_model(children@) + spec_block(
                            *md,
                            views,
                            end as int,
                            ext.footnotes_model(),
                        ).0 =~= full.0);
                    }
                    line = end;
                },
            }
        }
    }
    proof {
        assert(spec_block(*md, views, line_max as int, ext.footnotes_model()).0
            =~= Seq::<NodeModel>::empty());
        assert(seq_model(children@) =~= full.0);
    }
    children
}

/// A freshly built block node with no attributes and no children has the
/// leaf model of its payload.
proof fn lemma_block_leaf(n: Node)
    requires
        n.attrs@.len() == 0,
        n.children@.len() == 0,
    ensures
        n.to_model() == leaf_model(crate::node::value_model(n.value)),
{
    assert(crate::node::attr_model(n.attrs@) =~= Seq::<(Seq<char>, Seq<char>)>::empty());
    assert(seq_model(n.children@) =~= Seq::<NodeModel>::empty());
    assert(n.to_model() =~= leaf_model(crate::node::value_model(n.value)));
}

} // verus!
