//! Document-level preprocessing, run on the raw source before block
//! parsing: contact spans are wrapped in angle-bracket links, and citation
//! markers are renumbered consecutively.  Each step runs only when the
//! plugin it serves is enabled.
use crate::text::is_digit_char;
use crate::text::push_char;
use crate::text::push_decimal;
use crate::text::spec_decimal;
use vstd::prelude::*;
use vstd::string::*;

verus! {

/// What `replace_all` of the (leftmost, non-overlapping) matches of
/// `pattern` with `replacement` yields on `text`.
pub uninterp spec fn regex_replaced(
    pattern: Seq<char>,
    replacement: Seq<char>,
    text: Seq<char>,
) -> Seq<char>;

/// Relies on regex::Regex::new and regex::Regex::replace_all: replaces
/// every non-overlapping match of `pattern`, leftmost first, with
/// `replacement` (with `$n` standing for capture group `n`).  The result
/// depends on the three arguments alone; a pattern that does not compile
/// leaves the text unchanged.
#[verifier::external_body]
fn regex_replace_all(pattern: &str, replacement: &str, text: &str) -> (r: String)
    ensures
        r@ == regex_replaced(pattern@, replacement@, text@),
{
    match regex::Regex::new(pattern) {
        Ok(re) => re.replace_all(text, replacement).into_owned(),
        Err(_) => text.to_owned(),
    }
}

/// The first position at or after `i` that does not hold an ASCII digit.
pub open spec fn spec_digits_end(s: Seq<char>, i: int) -> int
    decreases s.len() - i,
{
    if 0 <= i < s.len() && is_digit_char(s[i]) {
        spec_digits_end(s, i + 1)
    } else {
        i
    }
}

proof fn lemma_digits_end_bounds(s: Seq<char>, i: int)
    requires
        0 <= i <= s.len(),
    ensures
        i <= spec_digits_end(s, i) <= s.len(),
        forall|k: int| i <= k < spec_digits_end(s, i) ==> is_digit_char(s[k]),
        spec_digits_end(s, i) < s.len() ==> !is_digit_char(s[spec_digits_end(s, i)]),
    decreases s.len() - i,
{
    if 0 <= i < s.len() && is_digit_char(s[i]) {
        lemma_digits_end_bounds(s, i + 1);
    }
}

/// Whether a citation marker stands at the head of `s`: an opening mark,
/// one or more ASCII digits, and a closing mark.
pub open spec fn spec_citation_head(s: Seq<char>) -> bool {
    &&& s.len() > 0
    &&& s[0] == '【'
    &&& spec_digits_end(s, 1) > 1
    &&& spec_digits_end(s, 1) < s.len()
    &&& s[spec_digits_end(s, 1)] == '】'
}

/// The source with every citation marker renumbered: the `n`-th marker
/// (leftmost first, counting from `counter`) becomes that number between
/// the marks, whatever number stood there.
pub open spec fn spec_renumber(s: Seq<char>, counter: int) -> Seq<char>
    decreases s.len(),
    via spec_renumber_dec
{
    if s.len() == 0 {
        Seq::empty()
    } else if spec_citation_head(s) {
        seq!['【'] + spec_decimal(counter) + seq!['】'] + spec_renumber(
            s.skip(spec_digits_end(s, 1) + 1),
            counter + 1,
        )
    } else {
        seq![s[0]] + spec_renumber(s.drop_first(), counter)
    }
}

#[via_fn]
proof fn spec_renumber_dec(s: Seq<char>, counter: int) {
    if s.len() > 0 && spec_citation_head(s) {
        lemma_digits_end_bounds(s, 1);
    }
}

/// Renumbers the citation markers of `src` consecutively from zero.
pub fn renumber_citations(src: &str) -> (r: String)
    ensures
        r@ == spec_renumber(src@, 0),
{
    let n = src.unicode_len();
    let mut out = String::new();
    let mut p: usize = 0;
    let mut counter: u64 = 0;
    proof {
        assert(src@.skip(0) =~= src@);
        assert(out@ + spec_renumber(src@, 0) =~= spec_renumber(src@, 0));
    }
    while p < n
        invariant
            p <= n,
            n == src@.len(),
            counter <= p,
            spec_renumber(src@, 0) == out@ + spec_renumber(src@.skip(p as int), counter as int),
        decreases n - p,
    {
        let ghost tail = src@.skip(p as int);
        proof {
            assert(tail.len() == n - p);
            assert(forall|k: int| 0 <= k < tail.len() ==> tail[k] == src@[p + k]);
        }
        let c = src.get_char(p);
        let mut matched = false;
        let mut close: usize = 0;
        if c == '【' {
            let mut j = p + 1;
            while j < n && digit_at(src, j)
                invariant
                    p + 1 <= j <= n,
                    n == src@.len(),
                    forall|k: int| p + 1 <= k < j ==> is_digit_char(src@[k]),
                decreases n - j,
            {
                j = j + 1;
            }
            proof {
                lemma_digits_end_bounds(tail, 1);
                assert(forall|k: int|
                    1 <= k < j - p ==> tail[k] == src@[p + k] && is_digit_char(tail[k]));
                if j < n {
                    assert(tail[j - p] == src@[j as int]);
                }
                assert(spec_digits_end(tail, 1) == j - p);
            }
            if j > p + 1 && j < n && src.get_char(j) == '】' {
                matched = true;
                close = j;
                proof {
                    assert(tail[j - p] == src@[j as int]);
                    assert(spec_citation_head(tail));
                }
            } else {
                proof {
                    if j < n {
                        assert(tail[j - p] == src@[j as int]);
                    }
                    assert(!spec_citation_head(tail));
                }
            }
        } else {
            proof {
                assert(tail[0] == src@[p as int]);
                assert(!spec_citation_head(tail));
            }
        }
        if matched {
            push_char(&mut out, '【');
            push_decimal(counter, &mut out);
            push_char(&mut out, '】');
            proof {
                assert(src@.skip(p as int).skip(spec_digits_end(src@.skip(p as int), 1) + 1)
                    =~= src@.skip(close + 1));
                assert(out@ + spec_renumber(src@.skip(close + 1), counter + 1) =~= spec_renumber(
                    src@,
                    0,
                ));
            }
            p = close + 1;
            counter = counter + 1;
        } else {
            push_char(&mut out, c);
            proof {
                assert(tail.drop_first() =~= src@.skip(p + 1));
                assert(out@ + spec_renumber(src@.skip(p + 1), counter as int) =~= spec_renumber(
                    src@,
                    0,
                ));
            }
            p = p + 1;
        }
    }
    proof {
        assert(src@.skip(n as int) =~= Seq::<char>::empty());
        assert(out@ =~= spec_renumber(src@, 0));
    }
    out
}

fn digit_at(s: &str, i: usize) -> (r: bool)
    requires
        i < s@.len(),
    ensures
        r == is_digit_char(s@[i as int]),
{
    let c = s.get_char(i);
    '0' <= c && c <= '9'
}

/// Whether the plugin list names `name`.
pub open spec fn spec_has_plugin(enabled: Seq<String>, name: Seq<char>) -> bool {
    exists|i: int| 0 <= i < enabled.len() && enabled[i]@ == name
}

fn has_plugin(enabled: &Vec<String>, name: &str) -> (r: bool)
    ensures
        r == spec_has_plugin(enabled@, name@),
{
    let owned = String::from_str(name);
    let n = enabled.len();
    let mut i: usize = 0;
    while i < n
        invariant
            i <= n,
            n == enabled@.len(),
            owned@ == name@,
            forall|j: int| 0 <= j < i ==> enabled@[j]@ != name@,
        decreases n - i,
    {
        if enabled[i] == owned {
            return true;
        }
        i = i + 1;
    }
    false
}

/// What preprocessing yields: with the contact-info plugin enabled, email
/// and phone spans are wrapped in angle-bracket links; with the citation
/// plugin enabled, citation markers are then renumbered from zero.
pub open spec fn spec_preprocess(src: Seq<char>, enabled: Seq<String>) -> Seq<char> {
    let a = if spec_has_plugin(enabled, "kagi_contact_info"@) {
        regex_replaced(
            r"(\s|^|\()((\+?\d{1,3}[\s.-])?(?:\(\d{3}\)|\d{3})[\s.-]\d{3}[\s.-]\d{4})"@,
            "$1<tel:$2>"@,
            regex_replaced(
                r"(\s|^)([a-zA-Z0-9._%+-]+@[a-zA-Z0-9.-]+\.[a-zA-Z]{2,})(\W|$)"@,
                "$1<mailto:$2>$3"@,
                src,
            ),
        )
    } else {
        src
    };
    if spec_has_plugin(enabled, "citation"@) {
        spec_renumber(a, 0)
    } else {
        a
    }
}

/// Runs the per-plugin preprocessing steps on the raw source, in a fixed
/// order, each only when the plugin it serves is enabled.
pub fn preprocess(src: &str, enabled_plugins: &Vec<String>) -> (r: String)
    ensures
        r@ == spec_preprocess(src@, enabled_plugins@),
{
    let mut processed = src.to_owned();
    if has_plugin(enabled_plugins, "kagi_contact_info") {
        processed = regex_replace_all(
            r"(\s|^)([a-zA-Z0-9._%+-]+@[a-zA-Z0-9.-]+\.[a-zA-Z]{2,})(\W|$)",
            "$1<mailto:$2>$3",
            processed.as_str(),
        );
        processed = regex_replace_all(
            r"(\s|^|\()((\+?\d{1,3}[\s.-])?(?:\(\d{3}\)|\d{3})[\s.-]\d{3}[\s.-]\d{4})",
            "$1<tel:$2>",
            processed.as_str(),
        );
    }
    if has_plugin(enabled_plugins, "citation") {
        processed = renumber_citations(processed.as_str());
    }
    processed
}

} // verus!
