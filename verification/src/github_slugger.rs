//! Heading slugs, generated the way the well-known hosting service does
//! it: lower-cased, symbol characters removed (keeping alphabetic symbol
//! characters, and turning a lone space or dash into a dash), whitespace
//! dashed, and made unique against the slugs seen so far by appending a
//! dash and the first free counter value.
use crate::text::push_char;
use crate::text::push_decimal;
use crate::text::spec_decimal;
use vstd::prelude::*;
use vstd::string::*;

verus! {

/// What lower-casing yields: a function of the characters alone.
pub uninterp spec fn lower_of(s: Seq<char>) -> Seq<char>;

/// Relies on str::to_lowercase: the result depends on the characters
/// alone, and an empty string stays empty.
#[verifier::external_body]
fn lowercase(s: &str) -> (r: String)
    ensures
        r@ == lower_of(s@),
        s@.len() == 0 ==> r@.len() == 0,
{
    s.to_lowercase()
}

/// Whether a character counts as alphabetic.
pub uninterp spec fn is_alphabetic_char(c: char) -> bool;

/// Relies on char::is_alphabetic: a property of the character alone.
#[verifier::external_body]
fn char_is_alphabetic(c: char) -> (r: bool)
    ensures
        r == is_alphabetic_char(c),
{
    c.is_alphabetic()
}

/// Whether a character counts as whitespace.
pub uninterp spec fn is_unicode_ws(c: char) -> bool;

/// Relies on char::is_whitespace: a property of the character alone.
#[verifier::external_body]
pub(crate) fn char_is_whitespace(c: char) -> (r: bool)
    ensures
        r == is_unicode_ws(c),
{
    c.is_whitespace()
}

/// How one removable match is rewritten: a lone space or dash becomes a
/// dash, a match of alphabetic characters is kept, anything else is
/// removed.
pub open spec fn spec_slug_map(s: Seq<char>) -> Seq<char> {
    if s == seq![' '] || s == seq!['-'] {
        seq!['-']
    } else if forall|i: int| 0 <= i < s.len() ==> is_alphabetic_char(#[trigger] s[i]) {
        s
    } else {
        Seq::empty()
    }
}

/// Rewrites one removable match.
pub fn slug_map_match(m: &str) -> (r: String)
    ensures
        r@ == spec_slug_map(m@),
{
    let n = m.unicode_len();
    if n == 1 && (m.get_char(0) == ' ' || m.get_char(0) == '-') {
        proof {
            assert(m@ =~= seq![m@[0]]);
        }
        let mut out = String::new();
        push_char(&mut out, '-');
        proof {
            assert(out@ =~= seq!['-']);
        }
        return out;
    }
    proof {
        if m@ == seq![' '] || m@ == seq!['-'] {
            assert(m@.len() == 1);
            assert(false);
        }
    }
    let mut i: usize = 0;
    while i < n
        invariant
            i <= n,
            n == m@.len(),
            !(m@ == seq![' ']) && !(m@ == seq!['-']),
            forall|j: int| 0 <= j < i ==> is_alphabetic_char(#[trigger] m@[j]),
        decreases n - i,
    {
        if !char_is_alphabetic(m.get_char(i)) {
            return String::new();
        }
        i = i + 1;
    }
    m.to_owned()
}

/// What removing the symbol matches of `pattern` yields on `text`, with
/// each match rewritten through the slug mapping.
pub uninterp spec fn slug_stripped(pattern: Seq<char>, text: Seq<char>) -> Seq<char>;

/// Relies on regex::Regex::new and regex::Regex::replace_all: every
/// non-overlapping match of `pattern`, leftmost first, is replaced by the
/// slug mapping of its text; the result depends on the two arguments
/// alone.  A pattern that does not compile leaves the text unchanged.
#[verifier::external_body]
fn regex_strip(pattern: &str, text: &str) -> (r: String)
    ensures
        r@ == slug_stripped(pattern@, text@),
{
    match regex::Regex::new(pattern) {
        Ok(re) => re.replace_all(
            text,
            |caps: &regex::Captures| slug_map_match(caps.get(0).unwrap().as_str()),
        ).into_owned(),
        Err(_) => text.to_owned(),
    }
}

/// `s` with every whitespace character replaced by a dash.
pub open spec fn spec_dashed(s: Seq<char>) -> Seq<char> {
    s.map_values(
        |c: char|
            if is_unicode_ws(c) {
                '-'
            } else {
                c
            },
    )
}

fn dashify(s: &str) -> (r: String)
    ensures
        r@ == spec_dashed(s@),
{
    let n = s.unicode_len();
    let mut out = String::new();
    let mut i: usize = 0;
    proof {
        assert(out@ =~= spec_dashed(s@.take(0)));
    }
    while i < n
        invariant
            i <= n,
            n == s@.len(),
            out@ == spec_dashed(s@.take(i as int)),
        decreases n - i,
    {
        let c = s.get_char(i);
        if char_is_whitespace(c) {
            push_char(&mut out, '-');
        } else {
            push_char(&mut out, c);
        }
        proof {
            assert(s@.take(i + 1) =~= s@.take(i as int).push(s@[i as int]));
            assert(out@ =~= spec_dashed(s@.take(i + 1)));
        }
        i = i + 1;
    }
    proof {
        assert(s@.take(n as int) =~= s@);
    }
    out
}

/// What the underlying slug of a string is: lower-cased, symbol matches
/// rewritten, whitespace dashed.
pub open spec fn spec_slug_of(s: Seq<char>) -> Seq<char> {
    spec_dashed(
        slug_stripped(
            r"[\p{Other_Number}\p{Close_Punctuation}\p{Final_Punctuation}\p{Initial_Punctuation}\p{Open_Punctuation}\p{Other_Punctuation}\p{Dash_Punctuation}\p{Symbol}\p{Control}\p{Private_Use}\p{Format}\p{Unassigned}\p{Separator}]"@,
            lower_of(s),
        ),
    )
}

/// The underlying slug of a string: it does not keep track of previously
/// slugged strings, so equal inputs give equal slugs.
pub fn slug(input: &str) -> (r: String)
    ensures
        r@ == spec_slug_of(input@),
{
    let lowered = lowercase(input);
    let stripped = regex_strip(
        r"[\p{Other_Number}\p{Close_Punctuation}\p{Final_Punctuation}\p{Initial_Punctuation}\p{Open_Punctuation}\p{Other_Punctuation}\p{Dash_Punctuation}\p{Symbol}\p{Control}\p{Private_Use}\p{Format}\p{Unassigned}\p{Separator}]",
        lowered.as_str(),
    );
    dashify(stripped.as_str())
}

/// The candidate slug tried at probe step `i`: the base itself first,
/// then the base with `-i` appended.
pub open spec fn spec_candidate(base: Seq<char>, i: int) -> Seq<char> {
    if i == 0 {
        base
    } else {
        base + seq!['-'] + spec_decimal(i)
    }
}

/// Whether the slug text is already taken.
pub open spec fn spec_taken(v: Seq<String>, s: Seq<char>) -> bool {
    exists|j: int| 0 <= j < v.len() && v[j]@ == s
}

/// The first probe step whose candidate is free, scanning from step `i`;
/// the scan stops probing at the number of slugs seen (by then a free
/// candidate always remains, since candidates are pairwise distinct).
pub open spec fn spec_probe(v: Seq<String>, base: Seq<char>, i: int) -> int
    decreases v.len() + 2 - i,
{
    if i >= v.len() {
        i
    } else if !spec_taken(v, spec_candidate(base, i)) {
        i
    } else {
        spec_probe(v, base, i + 1)
    }
}

/// The set of slugs seen so far.
pub struct Slugger {
    slugs: Vec<String>,
}

impl Slugger {
    /// The slugs seen so far, in the order they were produced.
    pub closed spec fn seen(self) -> Seq<String> {
        self.slugs@
    }

    /// A slugger that has seen nothing.
    pub fn new() -> (r: Slugger)
        ensures
            r.seen() == Seq::<String>::empty(),
    {
        Slugger { slugs: Vec::new() }
    }

    /// Generates a slug for the given string: the underlying slug, made
    /// unique against the slugs seen so far by appending `-1`, `-2`, ...
    /// until a free candidate is found; the result is recorded as seen.
    pub fn slug(&mut self, s: &str) -> (r: String)
        ensures
            r@ == spec_candidate(
                spec_slug_of(s@),
                spec_probe(old(self).seen(), spec_slug_of(s@), 0),
            ),
            final(self).seen() == old(self).seen().push(r),
    {
        let base = slug(s);
        let n = self.slugs.len();
        let mut idx: usize = 0;
        loop
            invariant_except_break
                idx <= n,
                n == self.slugs@.len(),
                self.slugs@ == old(self).slugs@,
                base@ == spec_slug_of(s@),
                spec_probe(self.slugs@, base@, 0) == spec_probe(self.slugs@, base@, idx as int),
            ensures
                self.slugs@ == old(self).slugs@,
                base@ == spec_slug_of(s@),
                spec_probe(self.slugs@, base@, 0) == idx,
            decreases n + 2 - idx,
        {
            if idx >= n {
                proof {
                    assert(spec_probe(self.slugs@, base@, idx as int) == idx);
                }
                break ;
            }
            let candidate = make_candidate(&base, idx);
            if !contains_slug(&self.slugs, &candidate) {
                proof {
                    assert(spec_probe(self.slugs@, base@, idx as int) == idx);
                }
                break ;
            }
            idx = idx + 1;
        }
        let result = make_candidate(&base, idx);
        self.slugs.push(result.clone());
        result
    }

    /// Clears the set of slugs seen so far.
    pub fn reset(&mut self)
        ensures
            final(self).seen() == Seq::<String>::empty(),
    {
        self.slugs = Vec::new();
    }
}

/// Builds the candidate slug for probe step `i`.
fn make_candidate(base: &String, i: usize) -> (r: String)
    ensures
        r@ == spec_candidate(base@, i as int),
{
    if i == 0 {
        base.clone()
    } else {
        let mut out = base.clone();
        push_char(&mut out, '-');
        push_decimal(i as u64, &mut out);
        proof {
            assert(out@ =~= base@ + seq!['-'] + spec_decimal(i as int));
        }
        out
    }
}

fn contains_slug(v: &Vec<String>, s: &String) -> (r: bool)
    ensures
        r == spec_taken(v@, s@),
{
    let n = v.len();
    let mut i: usize = 0;
    while i < n
        invariant
            i <= n,
            n == v@.len(),
            forall|j: int| 0 <= j < i ==> v@[j]@ != s@,
        decreases n - i,
    {
        if v[i] == *s {
            return true;
        }
        i = i + 1;
    }
    false
}

} // verus!
