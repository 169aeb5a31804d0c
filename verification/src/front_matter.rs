//! Front matter: a fenced block of three or more dashes.
//!
//! The opening fence must begin on the first line of the document and must
//! not be indented; the closing fence is the next line that starts with at
//! least as many dashes.  The block is recorded but produces no output.
use crate::block::spec_join_lines;
use crate::block::join_lines;
use crate::node::Node;
use crate::node::NodeValue;
use crate::parser::BlockRuleName;
use crate::parser::MarkdownIt;
use vstd::prelude::*;
use vstd::string::*;

verus! {

/// AST node for front matter.
pub struct FrontMatter {
    pub content: String,
}

/// The length of the leading run of `c` in `l`.
pub open spec fn spec_run_len(l: Seq<char>, c: char) -> int
    decreases l.len(),
{
    if l.len() > 0 && l[0] == c {
        1 + spec_run_len(l.drop_first(), c)
    } else {
        0
    }
}

pub proof fn lemma_run_len_bounds(l: Seq<char>, c: char)
    ensures
        0 <= spec_run_len(l, c) <= l.len(),
        forall|i: int| 0 <= i < spec_run_len(l, c) ==> l[i] == c,
        spec_run_len(l, c) < l.len() ==> l[spec_run_len(l, c)] != c,
    decreases l.len(),
{
    if l.len() > 0 && l[0] == c {
        lemma_run_len_bounds(l.drop_first(), c);
        assert(forall|i: int| 0 <= i < l.drop_first().len() ==> l.drop_first()[i] == l[i + 1]);
        assert forall|i: int| 0 <= i < spec_run_len(l, c) implies l[i] == c by {
            if i > 0 {
                assert(l.drop_first()[i - 1] == c);
            }
        }
    }
}

/// Counts the leading run of `c` in the line.
pub fn run_len(l: &String, c: char) -> (r: usize)
    ensures
        r == spec_run_len(l@, c),
{
    let s = l.as_str();
    let n = s.unicode_len();
    let mut i: usize = 0;
    proof {
        lemma_run_len_bounds(l@, c);
    }
    while i < n && s.get_char(i) == c
        invariant
            i <= n,
            n == l@.len(),
            s@ == l@,
            forall|j: int| 0 <= j < i ==> l@[j] == c,
            i <= spec_run_len(l@, c),
        decreases n - i,
    {
        i = i + 1;
        proof {
            lemma_run_len_bounds(l@, c);
        }
    }
    proof {
        lemma_run_len_bounds(l@, c);
    }
    i
}

/// The first line at or after `j` that opens with at least `k` dashes.
pub open spec fn spec_first_closing(lines: Seq<Seq<char>>, k: int, j: int) -> Option<int>
    decreases lines.len() - j,
{
    if j < 0 || j >= lines.len() {
        None
    } else if spec_run_len(lines[j], '-') >= k {
        Some(j)
    } else {
        spec_first_closing(lines, k, j + 1)
    }
}

/// What a front-matter match yields on the line views `lines`: the index
/// of the closing line, provided line zero opens with three or more
/// dashes and a closing line exists.
pub open spec fn spec_front_matter(lines: Seq<Seq<char>>) -> Option<int> {
    if lines.len() > 0 && spec_run_len(lines[0], '-') >= 3 {
        spec_first_closing(lines, spec_run_len(lines[0], '-'), 1)
    } else {
        None
    }
}

/// Matches front matter when the scan stands on the first line of the
/// document; the node's content is the lines between the fences, and the
/// fences are consumed with them.
pub fn front_matter_run(lines: &Vec<String>, line: usize) -> (r: Option<(Node, usize)>)
    requires
        line < lines@.len(),
    ensures
        r matches Some((n, cnt)) ==> 1 <= cnt <= lines@.len() - line,
        line != 0 ==> r is None,
        line == 0 ==> match spec_front_matter(lines@.map_values(|l: String| l@)) {
            Some(j) => r matches Some((n, cnt)) && {
                &&& cnt == j + 1
                &&& 1 <= cnt <= lines@.len()
                &&& n.children@.len() == 0
                &&& n.attrs@.len() == 0
                &&& n.value matches NodeValue::FrontMatter(f) && f.content@ == spec_join_lines(
                    lines@.map_values(|l: String| l@),
                    1,
                    j,
                    0,
                )
            },
            None => r is None,
        },
{
    let ghost views = lines@.map_values(|l: String| l@);
    if line != 0 {
        return None;
    }
    let k = run_len(&lines[0], '-');
    if k < 3 {
        return None;
    }
    let line_max = lines.len();
    let mut j: usize = 1;
    while j < line_max && run_len(&lines[j], '-') < k
        invariant
            1 <= j <= line_max,
            line_max == lines@.len(),
            views == lines@.map_values(|l: String| l@),
            k == spec_run_len(views[0], '-'),
            spec_first_closing(views, k as int, 1) == spec_first_closing(views, k as int, j as int),
        decreases line_max - j,
    {
        proof {
            assert(views[j as int] == lines@[j as int]@);
        }
        j = j + 1;
    }
    if j >= line_max {
        proof {
            assert(spec_first_closing(views, k as int, j as int) is None);
        }
        return None;
    }
    proof {
        assert(views[j as int] == lines@[j as int]@);
        assert(spec_first_closing(views, k as int, j as int) == Some(j as int));
    }
    let content = join_lines(lines, 1, j, 0);
    let node = Node::new(NodeValue::FrontMatter(FrontMatter { content }));
    Some((node, j + 1))
}

/// Whether the front-matter rule would claim this line (used for
/// paragraph interruption): it never interrupts, since it can only open
/// on the first line, where no paragraph is in progress.
pub fn front_matter_check(lines: &Vec<String>, line: usize) -> (r: bool)
    ensures
        !r,
{
    false
}

/// Registers the front-matter block rule before all other block rules.
pub fn add(md: &mut MarkdownIt)
    ensures
        final(md).block_rules@ == seq![BlockRuleName::FrontMatter] + old(md).block_rules@,
        final(md).inline_rules@ == old(md).inline_rules@,
        final(md).core_rules@ == old(md).core_rules@,
        final(md).ext == old(md).ext,
{
    md.add_block_rule_before_all(BlockRuleName::FrontMatter);
}

} // verus!
