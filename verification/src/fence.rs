//! Code fence blocks: ```` ```lang ```` or `~~~lang`.
//!
//! An opening fence is a run of three or more backticks or tildes at an
//! indent below the parser's maximum; the closing fence is at least as
//! long and carries nothing but blanks after it.  An unclosed fence is
//! auto-closed at end of document.
use crate::block::line_indent;
use crate::block::spec_indent;
use crate::block::spec_join_lines;
use crate::block::join_lines;
use crate::block::strip_indent;
use crate::front_matter::spec_run_len;
use crate::front_matter::run_len;
use crate::node::Node;
use crate::node::NodeValue;
use crate::parser::BlockRuleName;
use crate::parser::MarkdownIt;
use crate::text::is_blank_char;
use crate::text::push_char;
use crate::text::spec_find_char;
use crate::text::find_char_from;
use vstd::prelude::*;
use vstd::string::*;

verus! {

/// Parser-scoped settings for code fences: the prefix put before the
/// language name when forming a class attribute.
pub struct FenceSettings {
    pub lang_prefix: String,
}

/// AST node for a fenced code block.
pub struct CodeFence {
    pub info: String,
    pub marker: char,
    pub marker_len: usize,
    pub content: String,
    pub lang_prefix: String,
}

/// ASCII punctuation, the characters a backslash may escape.
pub open spec fn is_punct_char(c: char) -> bool {
    ('!' <= c && c <= '/') || (':' <= c && c <= '@') || ('[' <= c && c <= '`') || ('{' <= c && c
        <= '~')
}

fn punct_char(c: char) -> (r: bool)
    ensures
        r == is_punct_char(c),
{
    ('!' <= c && c <= '/') || (':' <= c && c <= '@') || ('[' <= c && c <= '`') || ('{' <= c && c
        <= '~')
}

/// Backslash escapes removed: `\X` becomes `X` for ASCII punctuation `X`;
/// any other character is kept.
pub open spec fn spec_unescape(s: Seq<char>) -> Seq<char>
    decreases s.len(),
{
    if s.len() == 0 {
        Seq::empty()
    } else if s[0] == '\\' && s.len() >= 2 && is_punct_char(s[1]) {
        seq![s[1]] + spec_unescape(s.skip(2))
    } else {
        seq![s[0]] + spec_unescape(s.skip(1))
    }
}

/// Removes backslash escapes from `s`.
pub fn unescape_str(s: &str) -> (r: String)
    ensures
        r@ == spec_unescape(s@),
{
    let n = s.unicode_len();
    let mut out = String::new();
    let mut i: usize = 0;
    proof {
        assert(s@.skip(0) =~= s@);
        assert(out@ + spec_unescape(s@) =~= spec_unescape(s@));
    }
    while i < n
        invariant
            i <= n,
            n == s@.len(),
            spec_unescape(s@) == out@ + spec_unescape(s@.skip(i as int)),
        decreases n - i,
    {
        let c = s.get_char(i);
        proof {
            assert(s@.skip(i as int).len() == n - i);
            assert(s@.skip(i as int)[0] == s@[i as int]);
        }
        if c == '\\' && i + 1 < n && punct_char(s.get_char(i + 1)) {
            proof {
                assert(s@.skip(i as int)[1] == s@[i + 1]);
                assert(s@.skip(i as int).skip(2) =~= s@.skip(i + 2));
            }
            push_char(&mut out, s.get_char(i + 1));
            proof {
                assert(out@ + spec_unescape(s@.skip(i + 2)) =~= spec_unescape(s@));
            }
            i = i + 2;
        } else {
            proof {
                assert(s@.skip(i as int).skip(1) =~= s@.skip(i + 1));
            }
            push_char(&mut out, c);
            proof {
                assert(out@ + spec_unescape(s@.skip(i + 1)) =~= spec_unescape(s@));
            }
            i = i + 1;
        }
    }
    proof {
        assert(s@.skip(n as int) =~= Seq::<char>::empty());
        assert(out@ =~= spec_unescape(s@));
    }
    out
}

/// `s` with leading spaces and tabs removed.
pub open spec fn spec_skip_blank(s: Seq<char>) -> Seq<char>
    decreases s.len(),
{
    if s.len() > 0 && is_blank_char(s[0]) {
        spec_skip_blank(s.drop_first())
    } else {
        s
    }
}

/// `s` with leading whitespace characters removed.
pub open spec fn spec_skip_uws(s: Seq<char>) -> Seq<char>
    decreases s.len(),
{
    if s.len() > 0 && crate::github_slugger::is_unicode_ws(s[0]) {
        spec_skip_uws(s.drop_first())
    } else {
        s
    }
}

/// The leading run of non-whitespace characters of `s`.
pub open spec fn spec_token_uws(s: Seq<char>) -> Seq<char>
    decreases s.len(),
{
    if s.len() > 0 && !crate::github_slugger::is_unicode_ws(s[0]) {
        seq![s[0]] + spec_token_uws(s.drop_first())
    } else {
        Seq::empty()
    }
}

/// The language name of a fence info string: the first
/// whitespace-separated token after backslash escapes are removed.
pub open spec fn info_lang(info: Seq<char>) -> Seq<char> {
    spec_token_uws(spec_skip_uws(spec_unescape(info)))
}

/// Extracts the language name from a fence info string.
pub fn fence_lang(info: &str) -> (r: String)
    ensures
        r@ == info_lang(info@),
{
    let u = unescape_str(info);
    let s = u.as_str();
    let n = s.unicode_len();
    let mut i: usize = 0;
    proof {
        assert(s@.skip(0) =~= s@);
    }
    while i < n && crate::github_slugger::char_is_whitespace(s.get_char(i))
        invariant
            i <= n,
            n == s@.len(),
            spec_skip_uws(s@) == spec_skip_uws(s@.skip(i as int)),
        decreases n - i,
    {
        proof {
            assert(s@.skip(i as int)[0] == s@[i as int]);
            assert(s@.skip(i as int).drop_first() =~= s@.skip(i + 1));
        }
        i = i + 1;
    }
    proof {
        if i < n {
            assert(s@.skip(i as int)[0] == s@[i as int]);
        }
        assert(spec_skip_uws(s@.skip(i as int)) == s@.skip(i as int));
    }
    let mut out = String::new();
    let mut j: usize = i;
    proof {
        assert(out@ + spec_token_uws(s@.skip(i as int)) =~= spec_token_uws(s@.skip(i as int)));
    }
    while j < n && !crate::github_slugger::char_is_whitespace(s.get_char(j))
        invariant
            i <= j <= n,
            n == s@.len(),
            spec_skip_uws(s@) == s@.skip(i as int),
            spec_token_uws(s@.skip(i as int)) == out@ + spec_token_uws(s@.skip(j as int)),
        decreases n - j,
    {
        proof {
            assert(s@.skip(j as int)[0] == s@[j as int]);
            assert(s@.skip(j as int).drop_first() =~= s@.skip(j + 1));
        }
        push_char(&mut out, s.get_char(j));
        proof {
            assert(out@ + spec_token_uws(s@.skip(j + 1)) =~= spec_token_uws(s@.skip(i as int)));
        }
        j = j + 1;
    }
    proof {
        if j < n {
            assert(s@.skip(j as int)[0] == s@[j as int]);
        }
        assert(spec_token_uws(s@.skip(j as int)) =~= Seq::<char>::empty());
        assert(out@ =~= info_lang(info@));
    }
    out
}

/// What an opening-fence scan of one line yields: the marker character,
/// the marker run length, and the info string after the run.
pub open spec fn spec_fence_header(l: Seq<char>, max_indent: int) -> Option<(char, int, Seq<char>)> {
    let ind = spec_indent(l);
    let b = l.skip(ind);
    if ind >= max_indent || b.len() == 0 {
        None
    } else if b[0] != '~' && b[0] != '`' {
        None
    } else if spec_run_len(b, b[0]) < 3 {
        None
    } else if b[0] == '`' && spec_find_char(b, '`', spec_run_len(b, b[0]), b.len() as int)
        is Some {
        None
    } else {
        Some((b[0], spec_run_len(b, b[0]), b.skip(spec_run_len(b, b[0]))))
    }
}

/// Whether `l` closes a fence opened with marker `m` of length `len`: at
/// least as long a run of the marker, below the maximum indent, with only
/// blanks after it.
pub open spec fn spec_fence_close(l: Seq<char>, m: char, len: int, max_indent: int) -> bool {
    let ind = spec_indent(l);
    let b = l.skip(ind);
    &&& b.len() > 0
    &&& b[0] == m
    &&& ind < max_indent
    &&& spec_run_len(b, m) >= len
    &&& forall|i: int| spec_run_len(b, m) <= i < b.len() ==> is_blank_char(b[i])
}

/// The first line at or after `j` that closes the fence, if any.
pub open spec fn spec_first_fence_close(
    lines: Seq<Seq<char>>,
    m: char,
    len: int,
    max_indent: int,
    j: int,
) -> Option<int>
    decreases lines.len() - j,
{
    if j < 0 || j >= lines.len() {
        None
    } else if spec_fence_close(lines[j], m, len, max_indent) {
        Some(j)
    } else {
        spec_first_fence_close(lines, m, len, max_indent, j + 1)
    }
}

/// The opening-fence scanner.
pub struct FenceScanner {
}

impl FenceScanner {
    /// Scans the line at the cursor for an opening fence.
    pub fn get_header(md: &MarkdownIt, lines: &Vec<String>, line: usize) -> (r: Option<
        (char, usize, String),
    >)
        requires
            line < lines@.len(),
        ensures
            match spec_fence_header(lines@[line as int]@, md.max_indent as int) {
                Some((m, len, params)) => r matches Some((m2, len2, p2)) && m2 == m && len2 == len
                    && p2@ == params,
                None => r is None,
            },
    {
        let l = &lines[line];
        let ind = line_indent(l);
        if ind >= md.max_indent {
            return None;
        }
        let b = strip_indent(l, ind);
        let bs = b.as_str();
        let bn = bs.unicode_len();
        if bn == 0 {
            return None;
        }
        let m = bs.get_char(0);
        if m != '~' && m != '`' {
            return None;
        }
        let len = run_len(&b, m);
        proof {
            crate::front_matter::lemma_run_len_bounds(b@, m);
        }
        if len < 3 {
            return None;
        }
        if m == '`' {
            let tick = find_char_from(bs, '`', len, bn);
            if tick.is_some() {
                return None;
            }
        }
        let params = bs.substring_char(len, bn).to_owned();
        proof {
            assert(params@ =~= b@.skip(len as int));
        }
        Some((m, len, params))
    }

    /// Cheap rejection: whether an opening fence stands at the cursor.
    pub fn check(md: &MarkdownIt, lines: &Vec<String>, line: usize) -> (r: bool)
        requires
            line < lines@.len(),
        ensures
            r == (spec_fence_header(lines@[line as int]@, md.max_indent as int) is Some),
    {
        FenceScanner::get_header(md, lines, line).is_some()
    }

    /// Consumes an opening fence, its content lines, and the closing
    /// fence if one exists before end of document.
    pub fn run(md: &MarkdownIt, lines: &Vec<String>, line: usize) -> (r: Option<(Node, usize)>)
        requires
            line < lines@.len(),
        ensures
            ({
                let views = lines@.map_values(|l: String| l@);
                match spec_fence_header(views[line as int], md.max_indent as int) {
                    None => r is None,
                    Some((m, len, params)) => {
                        let close = spec_first_fence_close(
                            views,
                            m,
                            len,
                            md.max_indent as int,
                            line + 1,
                        );
                        let end = match close {
                            Some(j) => j,
                            None => views.len() as int,
                        };
                        r matches Some((n, cnt)) && {
                            &&& cnt == match close {
                                Some(j) => j - line + 1,
                                None => views.len() - line,
                            }
                            &&& 1 <= cnt <= views.len() - line
                            &&& n.children@.len() == 0
                            &&& n.attrs@.len() == 0
                            &&& n.value matches NodeValue::CodeFence(f) && {
                                &&& f.marker == m
                                &&& f.marker_len == len
                                &&& f.info@ == params
                                &&& f.content@ == spec_join_lines(
                                    views,
                                    line + 1,
                                    end,
                                    spec_indent(views[line as int]),
                                )
                                &&& f.lang_prefix@ == match md.ext.fence() {
                                    Some(fs) => fs.lang_prefix@,
                                    None => "language-"@,
                                }
                            }
                        }
                    },
                }
            }),
    {
        let ghost views = lines@.map_values(|l: String| l@);
        let header = FenceScanner::get_header(md, lines, line);
        let (m, len, params) = match header {
            None => {
                return None;
            },
            Some(h) => h,
        };
        let line_max = lines.len();
        let mut j = line + 1;
        while j < line_max && !fence_close_line(&lines[j], m, len, md.max_indent)
            invariant
                line + 1 <= j <= line_max,
                line_max == lines@.len(),
                views == lines@.map_values(|l: String| l@),
                spec_first_fence_close(views, m, len as int, md.max_indent as int, line + 1)
                    == spec_first_fence_close(views, m, len as int, md.max_indent as int, j as int),
            decreases line_max - j,
        {
            proof {
                assert(views[j as int] == lines@[j as int]@);
            }
            j = j + 1;
        }
        let have_end = j < line_max;
        proof {
            if j < line_max {
                assert(views[j as int] == lines@[j as int]@);
                assert(spec_first_fence_close(views, m, len as int, md.max_indent as int, j as int)
                    == Some(j as int));
            } else {
                assert(spec_first_fence_close(views, m, len as int, md.max_indent as int, j as int)
                    is None);
            }
        }
        let indent = line_indent(&lines[line]);
        let content = join_lines(lines, line + 1, j, indent);
        let lang_prefix = match md.ext.get_fence() {
            Some(fs) => fs.lang_prefix.clone(),
            None => String::from_str("language-"),
        };
        let node = Node::new(
            NodeValue::CodeFence(
                CodeFence { info: params, marker: m, marker_len: len, content, lang_prefix },
            ),
        );
        proof {
            assert(views[line as int] == lines@[line as int]@);
        }
        if have_end {
            Some((node, j - line + 1))
        } else {
            Some((node, line_max - line))
        }
    }
}

/// Reports whether the line closes a fence with marker `m` of length `len`.
pub fn fence_close_line(l: &String, m: char, len: usize, max_indent: usize) -> (r: bool)
    ensures
        r == spec_fence_close(l@, m, len as int, max_indent as int),
{
    let ind = line_indent(l);
    if ind >= max_indent {
        return false;
    }
    let b = strip_indent(l, ind);
    let bs = b.as_str();
    let bn = bs.unicode_len();
    if bn == 0 {
        return false;
    }
    if bs.get_char(0) != m {
        return false;
    }
    let rl = run_len(&b, m);
    proof {
        crate::front_matter::lemma_run_len_bounds(b@, m);
    }
    if rl < len {
        return false;
    }
    let mut i = rl;
    while i < bn
        invariant
            rl <= i <= bn,
            bn == b@.len(),
            bs@ == b@,
            b@ == l@.skip(spec_indent(l@)),
            rl == spec_run_len(b@, m),
            forall|k: int| rl <= k < i ==> is_blank_char(b@[k]),
        decreases bn - i,
    {
        let c = bs.get_char(i);
        if !(c == ' ' || c == '\t') {
            return false;
        }
        i = i + 1;
    }
    true
}

/// Registers the fence block rule.
pub fn add(md: &mut MarkdownIt)
    ensures
        final(md).block_rules@ == old(md).block_rules@.push(BlockRuleName::Fence),
        final(md).inline_rules@ == old(md).inline_rules@,
        final(md).core_rules@ == old(md).core_rules@,
        final(md).ext == old(md).ext,
{
    md.add_block_rule(BlockRuleName::Fence);
}

/// Sets the class-attribute prefix put before a fence's language name.
pub fn set_lang_prefix(md: &mut MarkdownIt, lang_prefix: &str)
    requires
        old(md).ext.wf(),
    ensures
        final(md).ext.wf(),
        final(md).ext.fence() matches Some(f) && f.lang_prefix@ == lang_prefix@,
        final(md).ext.footnotes() == old(md).ext.footnotes(),
        final(md).block_rules@ == old(md).block_rules@,
        final(md).inline_rules@ == old(md).inline_rules@,
        final(md).core_rules@ == old(md).core_rules@,
{
    md.ext.insert_fence(FenceSettings { lang_prefix: String::from_str(lang_prefix) });
}

} // verus!
