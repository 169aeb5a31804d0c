//! The highlighted code fence: the same fence grammar as the plain code
//! fence, restricted to lines that carry exactly one backtick fence run,
//! and rendered inside the code-highlight wrapper markup.  The syntax
//! highlighter itself is a host concern: the fence body is emitted
//! escaped, as raw pre-rendered output.
use crate::block::line_indent;
use crate::block::spec_indent;
use crate::block::spec_join_lines;
use crate::block::join_lines;
use crate::fence::FenceScanner;
use crate::fence::spec_fence_header;
use crate::fence::spec_first_fence_close;
use crate::fence::fence_lang;
use crate::fence::info_lang;
use crate::node::Node;
use crate::node::NodeValue;
use crate::parser::BlockRuleName;
use crate::parser::MarkdownIt;
use crate::text::matches_at;
use crate::text::check_match_at;
use vstd::prelude::*;
use vstd::string::*;

verus! {

/// AST node for a highlighted code fence.
pub struct InkjetCodeFence {
    pub info: String,
    pub marker: char,
    pub marker_len: usize,
    pub content: String,
    pub use_pygments: bool,
}

/// Raw-output escaping as the outside escaper does it: `"`, `&`, `'`,
/// `/`, `<` and `>` become character references.
pub open spec fn v_escape_char(c: char) -> Seq<char> {
    if c == '"' {
        seq!['&', 'q', 'u', 'o', 't', ';']
    } else if c == '&' {
        seq!['&', 'a', 'm', 'p', ';']
    } else if c == '\'' {
        seq!['&', '#', 'x', '2', '7', ';']
    } else if c == '/' {
        seq!['&', '#', 'x', '2', 'f', ';']
    } else if c == '<' {
        seq!['&', 'l', 't', ';']
    } else if c == '>' {
        seq!['&', 'g', 't', ';']
    } else {
        seq![c]
    }
}

/// Raw-output escaping of a whole string.
pub open spec fn spec_v_escape(s: Seq<char>) -> Seq<char>
    decreases s.len(),
{
    if s.len() == 0 {
        Seq::empty()
    } else {
        v_escape_char(s[0]) + spec_v_escape(s.drop_first())
    }
}

/// Relies on v_htmlescape::escape_string: escapes exactly the characters
/// `"&'/<>` as their character references and keeps every other one.
#[verifier::external_body]
fn v_escape_str(s: &str) -> (r: String)
    ensures
        r@ == spec_v_escape(s@),
{
    let mut out = String::new();
    v_htmlescape::escape_string(s, &mut out);
    out
}

/// The number of non-overlapping backtick fence runs in the line.
pub open spec fn spec_tick_runs(s: Seq<char>, i: int) -> int
    decreases s.len() - i,
{
    if i < 0 || i + 3 > s.len() {
        0
    } else if matches_at(s, seq!['`', '`', '`'], i) {
        1 + spec_tick_runs(s, i + 3)
    } else {
        spec_tick_runs(s, i + 1)
    }
}

fn count_tick_runs(l: &String) -> (r: usize)
    ensures
        r == spec_tick_runs(l@, 0),
{
    let s = l.as_str();
    let n = s.unicode_len();
    let mut i: usize = 0;
    let mut count: usize = 0;
    proof {
        reveal_strlit("```");
    }
    while i < n && n - i >= 3
        invariant
            i <= n,
            n == s@.len(),
            s@ == l@,
            count <= i,
            "```"@ =~= seq!['`', '`', '`'],
            spec_tick_runs(l@, 0) == count + spec_tick_runs(l@, i as int),
        decreases n - i,
    {
        if check_match_at(s, "```", i) {
            count = count + 1;
            i = i + 3;
        } else {
            i = i + 1;
        }
    }
    proof {
        assert(spec_tick_runs(l@, i as int) == 0);
    }
    count
}

/// What an opening highlighted fence yields on one line: the plain fence
/// header, restricted to lines with exactly one backtick fence run.
pub open spec fn spec_inkjet_header(l: Seq<char>, max_indent: int) -> Option<
    (char, int, Seq<char>),
> {
    if spec_tick_runs(l, 0) == 1 {
        spec_fence_header(l, max_indent)
    } else {
        None
    }
}

/// The opening scanner for highlighted fences.
pub struct InkjetFenceScanner {
}

impl InkjetFenceScanner {
    /// Scans the line at the cursor for an opening highlighted fence;
    /// a line whose fences open and close together is rejected.
    pub fn get_header(md: &MarkdownIt, lines: &Vec<String>, line: usize) -> (r: Option<
        (char, usize, String),
    >)
        requires
            line < lines@.len(),
        ensures
            match spec_inkjet_header(lines@[line as int]@, md.max_indent as int) {
                Some((m, len, params)) => r matches Some((m2, len2, p2)) && m2 == m && len2
                    == len && p2@ == params,
                None => r is None,
            },
    {
        if count_tick_runs(&lines[line]) != 1 {
            return None;
        }
        FenceScanner::get_header(md, lines, line)
    }

    /// Cheap rejection: whether an opening highlighted fence stands at
    /// the cursor.
    pub fn check(md: &MarkdownIt, lines: &Vec<String>, line: usize) -> (r: bool)
        requires
            line < lines@.len(),
        ensures
            r == (spec_inkjet_header(lines@[line as int]@, md.max_indent as int) is Some),
    {
        InkjetFenceScanner::get_header(md, lines, line).is_some()
    }

    /// Consumes an opening highlighted fence, its content lines, and the
    /// closing fence if one exists before end of document.
    pub fn run(md: &MarkdownIt, lines: &Vec<String>, line: usize) -> (r: Option<(Node, usize)>)
        requires
            line < lines@.len(),
        ensures
            ({
                let views = lines@.map_values(|l: String| l@);
                match spec_inkjet_header(views[line as int], md.max_indent as int) {
                    None => r is None,
                    Some((m, len, params)) => {
                        let close = spec_first_fence_close(
                            views,
                            m,
                            len,
                            md.max_indent as int,
                            line + 1,
                        );
                        let end = match close {
                            Some(j) => j,
                            None => views.len() as int,
                        };
                        r matches Some((n, cnt)) && {
                            &&& cnt == match close {
                                Some(j) => j - line + 1,
                                None => views.len() - line,
                            }
                            &&& 1 <= cnt <= views.len() - line
                            &&& n.children@.len() == 0
                            &&& n.attrs@.len() == 0
                            &&& n.value matches NodeValue::InkjetCodeFence(f) && {
                                &&& f.marker == m
                                &&& f.marker_len == len
                                &&& f.use_pygments
                                &&& f.info@ == params
                                &&& f.content@ == spec_join_lines(
                                    views,
                                    line + 1,
                                    end,
                                    spec_indent(views[line as int]),
                                )
                            }
                        }
                    },
                }
            }),
    {
        let ghost views = lines@.map_values(|l: String| l@);
        let header = InkjetFenceScanner::get_header(md, lines, line);
        let (m, len, params) = match header {
            None => {
                return None;
            },
            Some(h) => h,
        };
        let line_max = lines.len();
        let mut j = line + 1;
        while j < line_max && !crate::fence::fence_close_line(&lines[j], m, len, md.max_indent)
            invariant
                line + 1 <= j <= line_max,
                line_max == lines@.len(),
                views == lines@.map_values(|l: String| l@),
                spec_first_fence_close(views, m, len as int, md.max_indent as int, line + 1)
                    == spec_first_fence_close(
                    views,
                    m,
                    len as int,
                    md.max_indent as int,
                    j as int,
                ),
            decreases line_max - j,
        {
            proof {
                assert(views[j as int] == lines@[j as int]@);
            }
            j = j + 1;
        }
        let have_end = j < line_max;
        proof {
            if j < line_max {
                assert(views[j as int] == lines@[j as int]@);
                assert(spec_first_fence_close(views, m, len as int, md.max_indent as int, j as int)
                    == Some(j as int));
            } else {
                assert(spec_first_fence_close(views, m, len as int, md.max_indent as int, j as int)
                    is None);
            }
        }
        let indent = line_indent(&lines[line]);
        let content = join_lines(lines, line + 1, j, indent);
        let node = Node::new(
            NodeValue::InkjetCodeFence(
                InkjetCodeFence {
                    info: params,
                    marker: m,
                    marker_len: len,
                    content,
                    use_pygments: true,
                },
            ),
        );
        proof {
            assert(views[line as int] == lines@[line as int]@);
        }
        if have_end {
            Some((node, j - line + 1))
        } else {
            Some((node, line_max - line))
        }
    }
}

/// What the highlighted fence emits: the code-highlight wrapper with the
/// language name and the escaped fence body as pre-rendered output.
pub open spec fn spec_inkjet_markup(info: Seq<char>, content: Seq<char>) -> Seq<char> {
    "<div class=\"codehilite\"><span class=\"filename\">"@ + info_lang(info)
        + "</span><pre><span></span><code>"@ + spec_v_escape(content) + "</code></pre></div>"@
}

/// Builds the pre-rendered wrapper markup for a highlighted fence body.
pub fn inkjet_markup(info: &str, content: &str) -> (r: String)
    ensures
        r@ == spec_inkjet_markup(info@, content@),
{
    let mut out = String::from_str("<div class=\"codehilite\"><span class=\"filename\">");
    let lang = fence_lang(info);
    out.append(lang.as_str());
    out.append("</span><pre><span></span><code>");
    let escaped = v_escape_str(content);
    out.append(escaped.as_str());
    out.append("</code></pre></div>");
    proof {
        assert(out@ =~= spec_inkjet_markup(info@, content@));
    }
    out
}

/// Registers the highlighted-fence block rule.
pub fn add(md: &mut MarkdownIt)
    ensures
        final(md).block_rules@ == old(md).block_rules@.push(BlockRuleName::InkjetFence),
        final(md).inline_rules@ == old(md).inline_rules@,
        final(md).core_rules@ == old(md).core_rules@,
        final(md).ext == old(md).ext,
{
    md.add_block_rule(BlockRuleName::InkjetFence);
}

} // verus!
