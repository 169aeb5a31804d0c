//! The inline rule engine.
//!
//! Rules are dispatched by a single triggering marker character: at each
//! scan position only the rules whose marker equals the current character
//! are attempted, in registry order, and the first rule that matches wins.
//! When no rule matches, the current character is emitted as plain text
//! and the scan advances by one.  Nested inline content is parsed by
//! re-invoking the tokenizer on a narrowed sub-span, and a rule's own
//! lookahead borrows the engine's whole-token forward scan (`skip_token`)
//! instead of re-implementing marker dispatch.
use crate::citation::spec_citation_scan;
use crate::contact_info::spec_contact_scan;
use crate::contact_info::contact_run;
use crate::extset::ExtSet;
use crate::footnote::fm_empty;
use crate::footnote::spec_add_inline;
use crate::footnote::spec_add_ref;
use crate::footnote::FmModel;
use crate::footnote::model_def_of;
use crate::footnote_inline::spec_inline_footnote_end;
use crate::footnote_references::spec_ref_label;
use crate::math_display::spec_display_math;
use crate::math_inline::spec_inline_math;
use crate::node::leaf_model;
use crate::node::seq_model;
use crate::node::NodeModel;
use crate::node::ValueModel;
use crate::footnote_inline::inline_footnote_run;
use crate::footnote_references::footnote_ref_run;
use crate::nl2br::nl2br_run;
use crate::node::Node;
use crate::node::NodeValue;
use crate::parser::InlineRuleName;
use crate::parser::MarkdownIt;
use vstd::prelude::*;
use vstd::string::*;

verus! {

/// The single character that triggers a rule.
pub open spec fn spec_marker(r: InlineRuleName) -> char {
    match r {
        InlineRuleName::Nl2Br => '\n',
        InlineRuleName::ContactInfo => '<',
        InlineRuleName::FootnoteRef => '[',
        InlineRuleName::InlineFootnote => '^',
        InlineRuleName::MathDisplay => '$',
        InlineRuleName::MathInline => '$',
        InlineRuleName::Citation => '\u{3010}',
    }
}

/// The marker character of a rule.
pub fn marker_of(r: InlineRuleName) -> (c: char)
    ensures
        c == spec_marker(r),
{
    match r {
        InlineRuleName::Nl2Br => '\n',
        InlineRuleName::ContactInfo => '<',
        InlineRuleName::FootnoteRef => '[',
        InlineRuleName::InlineFootnote => '^',
        InlineRuleName::MathDisplay => '$',
        InlineRuleName::MathInline => '$',
        InlineRuleName::Citation => '\u{3010}',
    }
}

/// The rules of `rules` whose marker is `c`, in registry order: the rules
/// the engine attempts, and the order it attempts them in, at a position
/// whose character is `c`.
pub open spec fn candidates(rules: Seq<InlineRuleName>, c: char) -> Seq<InlineRuleName>
    decreases rules.len(),
{
    if rules.len() == 0 {
        Seq::empty()
    } else if spec_marker(rules[0]) == c {
        seq![rules[0]] + candidates(rules.drop_first(), c)
    } else {
        candidates(rules.drop_first(), c)
    }
}

/// Registering one more rule at the end leaves all earlier attempt orders
/// unchanged: the new rule is attempted last among those with its marker.
pub proof fn lemma_candidates_push(rules: Seq<InlineRuleName>, r: InlineRuleName, c: char)
    ensures
        candidates(rules.push(r), c) == if spec_marker(r) == c {
            candidates(rules, c).push(r)
        } else {
            candidates(rules, c)
        },
    decreases rules.len(),
{
    if rules.len() == 0 {
        assert(rules.push(r)[0] == r);
        assert(rules.push(r).drop_first() =~= Seq::<InlineRuleName>::empty());
        if spec_marker(r) == c {
            assert(seq![r] + candidates(Seq::<InlineRuleName>::empty(), c) =~= candidates(
                rules,
                c,
            ).push(r));
        }
    } else {
        lemma_candidates_push(rules.drop_first(), r, c);
        assert(rules.push(r)[0] == rules[0]);
        assert(rules.push(r).drop_first() =~= rules.drop_first().push(r));
        if spec_marker(rules[0]) == c {
            if spec_marker(r) == c {
                assert(seq![rules[0]] + candidates(rules.drop_first(), c).push(r)
                    =~= (seq![rules[0]] + candidates(rules.drop_first(), c)).push(r));
            }
        }
    }
}

/// Rule-order determinism: with no placement directive, registering A and
/// then B puts A before B in the attempt order of their shared marker, and
/// registering them the other way round puts B first.
pub proof fn lemma_registration_order(
    rules: Seq<InlineRuleName>,
    a: InlineRuleName,
    b: InlineRuleName,
    c: char,
)
    requires
        spec_marker(a) == c,
        spec_marker(b) == c,
    ensures
        candidates(rules.push(a).push(b), c) == candidates(rules, c).push(a).push(b),
        candidates(rules.push(b).push(a), c) == candidates(rules, c).push(b).push(a),
{
    lemma_candidates_push(rules, a, c);
    lemma_candidates_push(rules.push(a), b, c);
    lemma_candidates_push(rules, b, c);
    lemma_candidates_push(rules.push(b), a, c);
}

/// Idempotent no-match, at the dispatch step: a rule whose marker is not
/// the character at the scan position is never attempted, so removing it
/// from the registry leaves the attempt order at that position unchanged.
pub proof fn lemma_no_marker_not_attempted(rules: Seq<InlineRuleName>, i: int, c: char)
    requires
        0 <= i < rules.len(),
        spec_marker(rules[i]) != c,
    ensures
        candidates(rules.remove(i), c) == candidates(rules, c),
    decreases rules.len(),
{
    if i == 0 {
        assert(rules.remove(0) =~= rules.drop_first());
    } else {
        assert(rules.remove(i)[0] == rules[0]);
        assert(rules.remove(i).drop_first() =~= rules.drop_first().remove(i - 1));
        lemma_no_marker_not_attempted(rules.drop_first(), i - 1, c);
    }
}

/// The length one rule's run would consume at `p`, judged read-only
/// against the current footnote state: the match conditions of each
/// rule's contract, with only the consumed length kept.
pub open spec fn spec_rule_len(
    r: InlineRuleName,
    md: MarkdownIt,
    s: Seq<char>,
    p: int,
    max: int,
    fm: Option<FmModel>,
) -> Option<int>
    decreases max - p, 0int, 0int,
{
    match r {
        InlineRuleName::Nl2Br => if 0 <= p < s.len() && s[p] == '\n' {
            Some(1)
        } else {
            None
        },
        InlineRuleName::ContactInfo => match spec_contact_scan(s, p, max) {
            Some((is_email, e)) => Some(e + 1 - p),
            None => None,
        },
        InlineRuleName::FootnoteRef => match spec_ref_label(s, p, max) {
            Some(label) => if model_def_of(fm_or_empty(fm).labels, label) is Some && fm_or_empty(
                fm,
            ).refs < usize::MAX {
                Some(label.len() as int + 3)
            } else {
                None
            },
            None => None,
        },
        InlineRuleName::InlineFootnote => if p + 2 <= max <= s.len() && s[p] == '^' && s[p + 1]
            == '[' && fm_or_empty(fm).defs < usize::MAX && fm_or_empty(fm).refs < usize::MAX {
            if p + 3 <= max {
                match spec_close_pos(md, s, p + 3, max, fm) {
                    Some(e) => Some(e + 1 - p),
                    None => None,
                }
            } else {
                None
            }
        } else {
            None
        },
        InlineRuleName::MathDisplay => match spec_display_math(s, p, max) {
            Some((len, math)) => Some(len),
            None => None,
        },
        InlineRuleName::MathInline => match spec_inline_math(s, p, max) {
            Some((len, math)) => Some(len),
            None => None,
        },
        InlineRuleName::Citation => match (spec_citation_scan(s, p, max), md.ext.citations()) {
            (Some((len, idx)), Some(cfg)) => if 0 <= idx < cfg.citations@.len() {
                Some(len)
            } else {
                None
            },
            _ => None,
        },
    }
}

/// The length consumed by the first rule of `rules` whose marker is the
/// character at `p` and whose match succeeds, judged read-only.
pub open spec fn spec_first_len(
    rules: Seq<InlineRuleName>,
    md: MarkdownIt,
    s: Seq<char>,
    p: int,
    max: int,
    fm: Option<FmModel>,
) -> Option<int>
    decreases max - p, 1int, rules.len(),
{
    if rules.len() == 0 || !(0 <= p < s.len()) {
        None
    } else if spec_marker(rules[0]) == s[p] {
        match spec_rule_len(rules[0], md, s, p, max, fm) {
            Some(l) => Some(l),
            None => spec_first_len(rules.drop_first(), md, s, p, max, fm),
        }
    } else {
        spec_first_len(rules.drop_first(), md, s, p, max, fm)
    }
}

/// How far one low-level token reaches from `p`: the span the first
/// matching registered rule would consume, else a whole backslash escape,
/// else one character.
pub open spec fn spec_skip_len(
    md: MarkdownIt,
    s: Seq<char>,
    p: int,
    max: int,
    fm: Option<FmModel>,
) -> int
    decreases max - p, 2int, 0int,
{
    let l = match spec_first_len(md.inline_rules@, md, s, p, max, fm) {
        Some(l) => l,
        None => if 0 <= p < s.len() && s[p] == '\\' && p + 1 < max {
            2
        } else {
            1
        },
    };
    if 1 <= l <= max - p {
        l
    } else {
        1
    }
}

/// The position of the first `]` reachable from `i` by whole-token
/// forward scanning: the lookahead the engine lends a rule for
/// nested-delimiter search, skipping over whole nested constructs.
pub open spec fn spec_close_pos(
    md: MarkdownIt,
    s: Seq<char>,
    i: int,
    max: int,
    fm: Option<FmModel>,
) -> Option<int>
    decreases max - i, 3int, 0int,
{
    if i >= max || i < 0 {
        None
    } else if s[i] == ']' {
        Some(i)
    } else {
        let l = spec_skip_len(md, s, i, max, fm);
        let step = if 1 <= l <= max - i {
            l
        } else {
            1
        };
        spec_close_pos(md, s, i + step, max, fm)
    }
}

/// The scan position only moves forward and a found `]` lies in range.
pub proof fn lemma_close_pos_range(
    md: MarkdownIt,
    s: Seq<char>,
    i: int,
    max: int,
    fm: Option<FmModel>,
)
    ensures
        spec_close_pos(md, s, i, max, fm) matches Some(e) ==> i <= e < max,
    decreases max - i, 4int, 0int,
{
    if 0 <= i < max && s[i] != ']' {
        let l = spec_skip_len(md, s, i, max, fm);
        let step: int = if 1 <= l <= max - i {
            l
        } else {
            1
        };
        lemma_close_pos_range(md, s, i + step, max, fm);
    }
}

/// Advances over one low-level token at `p`: the span the first matching
/// registered rule would consume (judged read-only against the current
/// state), else a whole backslash escape, else one character.  This is
/// the forward scan a rule's lookahead borrows from the engine.
#[verifier::loop_isolation(false)]
pub fn skip_token(md: &MarkdownIt, src: &str, p: usize, pos_max: usize, ext: &ExtSet) -> (r:
    usize)
    requires
        p < pos_max <= src@.len(),
    ensures
        r == spec_skip_len(*md, src@, p as int, pos_max as int, ext.footnotes_model()),
        1 <= r <= pos_max - p,
    decreases pos_max - p, 3int,
{
    let ghost fm = ext.footnotes_model();
    let c = src.get_char(p);
    let nr = md.inline_rules.len();
    let mut ri: usize = 0;
    let mut found: Option<usize> = None;
    proof {
        assert(md.inline_rules@.skip(0) =~= md.inline_rules@);
    }
    while ri < nr && found.is_none()
        invariant
            ri <= nr,
            nr == md.inline_rules@.len(),
            p < pos_max <= src@.len(),
            c == src@[p as int],
            fm == ext.footnotes_model(),
            found is None ==> spec_first_len(
                md.inline_rules@,
                *md,
                src@,
                p as int,
                pos_max as int,
                fm,
            ) == spec_first_len(
                md.inline_rules@.skip(ri as int),
                *md,
                src@,
                p as int,
                pos_max as int,
                fm,
            ),
            found matches Some(l) ==> spec_first_len(
                md.inline_rules@,
                *md,
                src@,
                p as int,
                pos_max as int,
                fm,
            ) == Some(l as int) && 1 <= l <= pos_max - p,
        decreases nr - ri,
    {
        let rule = md.inline_rules[ri];
        let ghost rules_sfx = md.inline_rules@.skip(ri as int);
        proof {
            assert(rules_sfx[0] == md.inline_rules@[ri as int]);
            assert(rules_sfx.drop_first() =~= md.inline_rules@.skip(ri + 1));
        }
        if marker_of(rule) == c {
            let l: Option<usize> = match rule {
                InlineRuleName::Nl2Br => Some(1),
                InlineRuleName::ContactInfo => match contact_run(src, p, pos_max) {
                    Some((n2, l2)) => Some(l2),
                    None => None,
                },
                InlineRuleName::FootnoteRef => crate::footnote_references::ref_peek_len(
                    src,
                    p,
                    pos_max,
                    ext,
                ),
                InlineRuleName::InlineFootnote => {
                    if p + 1 < pos_max && src.get_char(p + 1) == '[' {
                        let cap = match ext.get_footnotes() {
                            Some(m) => {
                                proof {
                                    m.lemma_model_agrees();
                                }
                                m.can_alloc()
                            },
                            None => true,
                        };
                        if cap {
                            if pos_max - p < 3 {
                                proof {
                                    assert(spec_close_pos(
                                        *md,
                                        src@,
                                        p + 3,
                                        pos_max as int,
                                        fm,
                                    ) is None);
                                }
                                None
                            } else {
                                match crate::footnote_inline::find_close(
                                    md,
                                    src,
                                    p + 3,
                                    pos_max,
                                    ext,
                                ) {
                                    Some(e) => Some(e + 1 - p),
                                    None => None,
                                }
                            }
                        } else {
                            None
                        }
                    } else {
                        None
                    }
                },
                InlineRuleName::MathDisplay => match crate::math_display::math_display_run(
                    src,
                    p,
                    pos_max,
                ) {
                    Some((n2, l2)) => Some(l2),
                    None => None,
                },
                InlineRuleName::MathInline => match crate::math_inline::math_inline_run(
                    src,
                    p,
                    pos_max,
                ) {
                    Some((n2, l2)) => Some(l2),
                    None => None,
                },
                InlineRuleName::Citation => match crate::citation::citation_run(
                    md,
                    src,
                    p,
                    pos_max,
                ) {
                    Some((n2, l2)) => Some(l2),
                    None => None,
                },
            };
            proof {
                if rule is FootnoteRef {
                    match spec_ref_label(src@, p as int, pos_max as int) {
                        Some(label) => {
                            crate::text::lemma_find_char_props(
                                src@,
                                ']',
                                p + 2,
                                pos_max as int,
                            );
                        },
                        None => {
                        },
                    }
                }
                assert(spec_rule_len(rule, *md, src@, p as int, pos_max as int, fm) == (
                match l {
                    Some(v) => Some(v as int),
                    None => None,
                }));
            }
            match l {
                Some(v) => {
                    found = Some(v);
                    proof {
                        assert(spec_first_len(
                            md.inline_rules@,
                            *md,
                            src@,
                            p as int,
                            pos_max as int,
                            fm,
                        ) == Some(v as int));
                    }
                },
                None => {
                    proof {
                        assert(spec_first_len(
                            rules_sfx,
                            *md,
                            src@,
                            p as int,
                            pos_max as int,
                            fm,
                        ) == spec_first_len(
                            md.inline_rules@.skip(ri + 1),
                            *md,
                            src@,
                            p as int,
                            pos_max as int,
                            fm,
                        ));
                    }
                },
            }
        } else {
            proof {
                assert(spec_first_len(rules_sfx, *md, src@, p as int, pos_max as int, fm)
                    == spec_first_len(
                    md.inline_rules@.skip(ri + 1),
                    *md,
                    src@,
                    p as int,
                    pos_max as int,
                    fm,
                ));
            }
        }
        ri = ri + 1;
    }
    proof {
        if found is None {
            assert(ri == nr);
            assert(md.inline_rules@.skip(nr as int) =~= Seq::<InlineRuleName>::empty());
            assert(spec_first_len(
                md.inline_rules@,
                *md,
                src@,
                p as int,
                pos_max as int,
                fm,
            ) is None);
        }
    }
    let l0: usize = match found {
        Some(l) => l,
        None => if c == '\\' && p + 1 < pos_max {
            2
        } else {
            1
        },
    };
    let r = if 1 <= l0 && l0 <= pos_max - p {
        l0
    } else {
        1
    };
    proof {
        assert(r == spec_skip_len(*md, src@, p as int, pos_max as int, fm));
    }
    r
}

/// The footnote-map model an attempt starts from: the stored one, or a
/// fresh empty map about to be put in place.
pub open spec fn fm_or_empty(fm: Option<FmModel>) -> FmModel {
    match fm {
        Some(m) => m,
        None => fm_empty(),
    }
}

/// The pending text run `[a, b)` as zero or one text-node models.
pub open spec fn text_model(s: Seq<char>, a: int, b: int) -> Seq<NodeModel> {
    if a < b {
        seq![leaf_model(ValueModel::Text(s.subrange(a, b)))]
    } else {
        Seq::empty()
    }
}

/// What one rule's attempt at position `p` yields: the produced node
/// model with its consumed length when the rule matches, and the footnote
/// state after the attempt (an attempt can install or extend the map even
/// when it ends in no match).
pub open spec fn spec_attempt(
    r: InlineRuleName,
    md: MarkdownIt,
    s: Seq<char>,
    p: int,
    max: int,
    fm: Option<FmModel>,
) -> (Option<(NodeModel, int)>, Option<FmModel>)
    decreases max - p, 0int, 0int,
    via spec_attempt_dec
{
    match r {
        InlineRuleName::Nl2Br => (
            if 0 <= p < s.len() && s[p] == '\n' {
                Some((leaf_model(ValueModel::Nl2Br), 1))
            } else {
                None
            },
            fm,
        ),
        InlineRuleName::ContactInfo => (
            match spec_contact_scan(s, p, max) {
                Some((is_email, e)) => Some(
                    (
                        leaf_model(
                            ValueModel::ContactInfo {
                                content: if is_email {
                                    s.subrange(p + 8, e)
                                } else {
                                    s.subrange(p + 5, e)
                                },
                                prefix: if is_email {
                                    "mailto:"@
                                } else {
                                    "tel:"@
                                },
                                email: is_email,
                            },
                        ),
                        e + 1 - p,
                    ),
                ),
                None => None,
            },
            fm,
        ),
        InlineRuleName::FootnoteRef => match spec_ref_label(s, p, max) {
            None => (None, fm),
            Some(label) => {
                let (m1, res) = spec_add_ref(fm_or_empty(fm), label);
                (
                    match res {
                        Some((d, rid)) => Some(
                            (
                                leaf_model(
                                    ValueModel::FootnoteReference {
                                        label: Some(label),
                                        ref_id: rid,
                                        def_id: d,
                                    },
                                ),
                                label.len() as int + 3,
                            ),
                        ),
                        None => None,
                    },
                    Some(m1),
                )
            },
        },
        InlineRuleName::InlineFootnote => match spec_inline_footnote_end(md, s, p, max, fm) {
            None => (None, fm),
            Some(e) => {
                let m0 = fm_or_empty(fm);
                if m0.defs < usize::MAX && m0.refs < usize::MAX {
                    let (m1, ids) = spec_add_inline(m0);
                    let (body, fm2) = spec_tok(md, s, p + 2, e, Some(m1), p + 2);
                    (
                        Some(
                            (
                                NodeModel {
                                    value: ValueModel::InlineFootnote,
                                    attrs: Seq::empty(),
                                    children: seq![
                                        NodeModel {
                                            value: ValueModel::FootnoteDefinition {
                                                label: None,
                                                def_id: Some(ids.0),
                                                inline: true,
                                            },
                                            attrs: Seq::empty(),
                                            children: body,
                                        },
                                        leaf_model(
                                            ValueModel::FootnoteReference {
                                                label: None,
                                                ref_id: ids.1,
                                                def_id: ids.0,
                                            },
                                        ),
                                    ],
                                },
                                e + 1 - p,
                            ),
                        ),
                        fm2,
                    )
                } else {
                    (None, Some(m0))
                }
            },
        },
        InlineRuleName::MathDisplay => (
            match spec_display_math(s, p, max) {
                Some((len, math)) => Some((leaf_model(ValueModel::MathDisplay(math)), len)),
                None => None,
            },
            fm,
        ),
        InlineRuleName::MathInline => (
            match spec_inline_math(s, p, max) {
                Some((len, math)) => Some((leaf_model(ValueModel::MathInline(math)), len)),
                None => None,
            },
            fm,
        ),
        InlineRuleName::Citation => (
            match (spec_citation_scan(s, p, max), md.ext.citations()) {
                (Some((len, idx)), Some(cfg)) => if 0 <= idx < cfg.citations@.len() {
                    Some(
                        (
                            leaf_model(
                                ValueModel::Citation {
                                    index: cfg.citations@[idx].index,
                                    title: cfg.citations@[idx].title@,
                                    source: cfg.citations@[idx].source@,
                                    passage: cfg.citations@[idx].passage@,
                                    md_offset: cfg.citations@[idx].md_offset,
                                    new_tab: cfg.open_links_in_new_tab,
                                },
                            ),
                            len,
                        ),
                    )
                } else {
                    None
                },
                _ => None,
            },
            fm,
        ),
    }
}

#[via_fn]
proof fn spec_attempt_dec(
    r: InlineRuleName,
    md: MarkdownIt,
    s: Seq<char>,
    p: int,
    max: int,
    fm: Option<FmModel>,
) {
    if r is InlineFootnote {
        match spec_inline_footnote_end(md, s, p, max, fm) {
            Some(e) => {
                lemma_close_pos_range(md, s, p + 3, max, fm);
            },
            None => {
            },
        }
    }
}

/// The first matching rule of `rules` whose marker is the character at
/// `p`, attempted in registry order, with the footnote state threaded
/// through the failed attempts before it.
pub open spec fn spec_try(
    rules: Seq<InlineRuleName>,
    md: MarkdownIt,
    s: Seq<char>,
    p: int,
    max: int,
    fm: Option<FmModel>,
) -> (Option<(NodeModel, int)>, Option<FmModel>)
    decreases max - p, 1int, rules.len(),
{
    if rules.len() == 0 || !(0 <= p < s.len()) {
        (None, fm)
    } else if spec_marker(rules[0]) == s[p] {
        let (res, fm2) = spec_attempt(rules[0], md, s, p, max, fm);
        match res {
            Some(v) => (Some(v), fm2),
            None => spec_try(rules.drop_first(), md, s, p, max, fm2),
        }
    } else {
        spec_try(rules.drop_first(), md, s, p, max, fm)
    }
}

/// The inline tokenization of `s[p..max]` with pending text from `ts`:
/// the node models produced, in order, and the footnote state after the
/// scan.  At each position the registered rules whose marker equals the
/// current character are attempted in registry order; the first match
/// contributes its node and consumes its length, any other character
/// joins the pending text run.
pub open spec fn spec_tok(
    md: MarkdownIt,
    s: Seq<char>,
    p: int,
    max: int,
    fm: Option<FmModel>,
    ts: int,
) -> (Seq<NodeModel>, Option<FmModel>)
    decreases max - p, 2int, 0int,
{
    if p >= max || p < 0 || max > s.len() {
        (text_model(s, ts, max), fm)
    } else {
        let (res, fm2) = spec_try(md.inline_rules@, md, s, p, max, fm);
        match res {
            Some((nm, len)) => {
                let q = if 1 <= len <= max - p {
                    p + len
                } else {
                    p + 1
                };
                let (rest, fm3) = spec_tok(md, s, q, max, fm2, q);
                (text_model(s, ts, p) + seq![nm] + rest, fm3)
            },
            None => spec_tok(md, s, p + 1, max, fm2, ts),
        }
    }
}

/// What the inline pass makes of one node model: a paragraph's raw text
/// is tokenized into its children, any other node has its children passed
/// in order, with the footnote state threaded through.
pub open spec fn spec_pass_node(md: MarkdownIt, nm: NodeModel, fm: Option<FmModel>) -> (
    NodeModel,
    Option<FmModel>,
)
    decreases nm, 1int,
{
    match nm.value {
        ValueModel::Paragraph(raw) => {
            let (kids, fm2) = spec_tok(md, raw, 0, raw.len() as int, fm, 0);
            (
                NodeModel {
                    value: ValueModel::Paragraph(Seq::empty()),
                    attrs: nm.attrs,
                    children: kids,
                },
                fm2,
            )
        },
        _ => {
            let (kids, fm2) = spec_pass_seq(md, nm.children, fm);
            (NodeModel { value: nm.value, attrs: nm.attrs, children: kids }, fm2)
        },
    }
}

/// The inline pass over a node-model list, in order.
pub open spec fn spec_pass_seq(md: MarkdownIt, nodes: Seq<NodeModel>, fm: Option<FmModel>) -> (
    Seq<NodeModel>,
    Option<FmModel>,
)
    decreases nodes, 0int,
{
    if nodes.len() == 0 {
        (Seq::empty(), fm)
    } else {
        let (first, fm2) = spec_pass_node(md, nodes[0], fm);
        let (rest, fm3) = spec_pass_seq(md, nodes.drop_first(), fm2);
        (seq![first] + rest, fm3)
    }
}

/// Two parser configurations that differ only in the inline registry.
pub open spec fn same_but_inline(md1: MarkdownIt, md2: MarkdownIt) -> bool {
    &&& md2.block_rules@ == md1.block_rules@
    &&& md2.core_rules@ == md1.core_rules@
    &&& md2.ext == md1.ext
    &&& md2.max_indent == md1.max_indent
}

/// `md2` is `md1` with inline rule `i` removed, and that rule's trigger
/// marker occurs nowhere before `max`.
pub open spec fn removal_ok(
    md1: MarkdownIt,
    md2: MarkdownIt,
    i: int,
    s: Seq<char>,
    max: int,
) -> bool {
    &&& same_but_inline(md1, md2)
    &&& 0 <= i < md1.inline_rules@.len()
    &&& md2.inline_rules@ == md1.inline_rules@.remove(i)
    &&& forall|k: int| 0 <= k < max ==> s[k] != spec_marker(md1.inline_rules@[i])
}

/// Idempotent no-match, at the tokenizer: a rule whose trigger marker
/// does not occur before `max` contributes nothing, so removing it from
/// the registry leaves the tokenization (nodes and footnote state alike)
/// unchanged, for every span and every starting state.
pub proof fn lemma_unused_rule_same_tok(
    md1: MarkdownIt,
    md2: MarkdownIt,
    i: int,
    s: Seq<char>,
    p: int,
    max: int,
    fm: Option<FmModel>,
    ts: int,
)
    requires
        removal_ok(md1, md2, i, s, max),
    ensures
        spec_tok(md1, s, p, max, fm, ts) == spec_tok(md2, s, p, max, fm, ts),
    decreases max - p, 2int, 0int,
{
    if p >= max || p < 0 || max > s.len() {
    } else {
        lemma_try_removed(md1.inline_rules@, i, md1, md2, i, s, p, max, fm);
        let (res, fm2) = spec_try(md1.inline_rules@, md1, s, p, max, fm);
        match res {
            Some((nm, len)) => {
                let q = if 1 <= len <= max - p {
                    p + len
                } else {
                    p + 1
                };
                lemma_unused_rule_same_tok(md1, md2, i, s, q, max, fm2, q);
            },
            None => {
                lemma_unused_rule_same_tok(md1, md2, i, s, p + 1, max, fm2, ts);
            },
        }
    }
}

/// One rule attempted under the two configurations yields the same
/// result: only the nested tokenization of an inline footnote body
/// consults the registry, and the induction covers it.
proof fn lemma_attempt_same(
    r: InlineRuleName,
    md1: MarkdownIt,
    md2: MarkdownIt,
    i: int,
    s: Seq<char>,
    p: int,
    max: int,
    fm: Option<FmModel>,
)
    requires
        removal_ok(md1, md2, i, s, max),
    ensures
        spec_attempt(r, md1, s, p, max, fm) == spec_attempt(r, md2, s, p, max, fm),
    decreases max - p, 0int, 0int,
{
    if r is InlineFootnote {
        lemma_close_same(md1, md2, i, s, p + 3, max, fm);
        match spec_inline_footnote_end(md1, s, p, max, fm) {
            Some(e) => {
                lemma_close_pos_range(md1, s, p + 3, max, fm);
                let m0 = fm_or_empty(fm);
                if m0.defs < usize::MAX && m0.refs < usize::MAX {
                    let (m1, ids) = spec_add_inline(m0);
                    lemma_unused_rule_same_tok(md1, md2, i, s, p + 2, e, Some(m1), p + 2);
                }
            },
            None => {
            },
        }
    }
}

/// One rule's read-only match length agrees under the two configurations.
proof fn lemma_rule_len_same(
    r: InlineRuleName,
    md1: MarkdownIt,
    md2: MarkdownIt,
    i: int,
    s: Seq<char>,
    p: int,
    max: int,
    fm: Option<FmModel>,
)
    requires
        removal_ok(md1, md2, i, s, max),
    ensures
        spec_rule_len(r, md1, s, p, max, fm) == spec_rule_len(r, md2, s, p, max, fm),
    decreases max - p, 0int, 0int,
{
    if r is InlineFootnote && p + 3 <= max {
        lemma_close_same(md1, md2, i, s, p + 3, max, fm);
    }
}

/// Whole-token scanning agrees under the two configurations: the
/// removed rule's marker never occurs, so it matches nowhere.
proof fn lemma_close_same(
    md1: MarkdownIt,
    md2: MarkdownIt,
    i: int,
    s: Seq<char>,
    j: int,
    max: int,
    fm: Option<FmModel>,
)
    requires
        removal_ok(md1, md2, i, s, max),
    ensures
        spec_close_pos(md1, s, j, max, fm) == spec_close_pos(md2, s, j, max, fm),
    decreases max - j, 3int, 1int,
{
    if 0 <= j < max && s[j] != ']' {
        lemma_skip_same(md1, md2, i, s, j, max, fm);
        let l = spec_skip_len(md1, s, j, max, fm);
        let step: int = if 1 <= l <= max - j {
            l
        } else {
            1
        };
        lemma_close_same(md1, md2, i, s, j + step, max, fm);
    }
}

proof fn lemma_skip_same(
    md1: MarkdownIt,
    md2: MarkdownIt,
    i: int,
    s: Seq<char>,
    p: int,
    max: int,
    fm: Option<FmModel>,
)
    requires
        removal_ok(md1, md2, i, s, max),
    ensures
        spec_skip_len(md1, s, p, max, fm) == spec_skip_len(md2, s, p, max, fm),
    decreases max - p, 2int, 1int,
{
    if 0 <= p < max {
        lemma_first_len_removed(md1.inline_rules@, i, md1, md2, i, s, p, max, fm);
    } else if p < 0 {
        assert(spec_first_len(md1.inline_rules@, md1, s, p, max, fm) is None);
        assert(spec_first_len(md2.inline_rules@, md2, s, p, max, fm) is None);
    } else {
        assert(spec_skip_len(md1, s, p, max, fm) == 1);
        assert(spec_skip_len(md2, s, p, max, fm) == 1);
    }
}

/// Dropping the absent-marker rule leaves every read-only match length
/// dispatch unchanged.
proof fn lemma_first_len_removed(
    rules: Seq<InlineRuleName>,
    j: int,
    md1: MarkdownIt,
    md2: MarkdownIt,
    i: int,
    s: Seq<char>,
    p: int,
    max: int,
    fm: Option<FmModel>,
)
    requires
        removal_ok(md1, md2, i, s, max),
        0 <= j < rules.len(),
        rules[j] == md1.inline_rules@[i],
        0 <= p < max,
    ensures
        spec_first_len(rules, md1, s, p, max, fm) == spec_first_len(
            rules.remove(j),
            md2,
            s,
            p,
            max,
            fm,
        ),
    decreases max - p, 1int, rules.len() + 1,
{
    if !(p < s.len()) {
    } else if j == 0 {
        assert(spec_marker(rules[0]) != s[p]);
        assert(rules.remove(0) =~= rules.drop_first());
        lemma_first_len_lists(rules.drop_first(), md1, md2, i, s, p, max, fm);
    } else {
        assert(rules.remove(j)[0] == rules[0]);
        assert(rules.remove(j).drop_first() =~= rules.drop_first().remove(j - 1));
        lemma_rule_len_same(rules[0], md1, md2, i, s, p, max, fm);
        if spec_marker(rules[0]) == s[p] {
            match spec_rule_len(rules[0], md1, s, p, max, fm) {
                Some(l) => {
                },
                None => {
                    lemma_first_len_removed(
                        rules.drop_first(),
                        j - 1,
                        md1,
                        md2,
                        i,
                        s,
                        p,
                        max,
                        fm,
                    );
                },
            }
        } else {
            lemma_first_len_removed(rules.drop_first(), j - 1, md1, md2, i, s, p, max, fm);
        }
    }
}

/// Read-only match length dispatch over the same rule list agrees under
/// the two configurations.
proof fn lemma_first_len_lists(
    rules: Seq<InlineRuleName>,
    md1: MarkdownIt,
    md2: MarkdownIt,
    i: int,
    s: Seq<char>,
    p: int,
    max: int,
    fm: Option<FmModel>,
)
    requires
        removal_ok(md1, md2, i, s, max),
    ensures
        spec_first_len(rules, md1, s, p, max, fm) == spec_first_len(rules, md2, s, p, max, fm),
    decreases max - p, 1int, rules.len(),
{
    if rules.len() > 0 && 0 <= p < s.len() {
        if spec_marker(rules[0]) == s[p] {
            lemma_rule_len_same(rules[0], md1, md2, i, s, p, max, fm);
            match spec_rule_len(rules[0], md1, s, p, max, fm) {
                Some(l) => {
                },
                None => {
                    lemma_first_len_lists(rules.drop_first(), md1, md2, i, s, p, max, fm);
                },
            }
        } else {
            lemma_first_len_lists(rules.drop_first(), md1, md2, i, s, p, max, fm);
        }
    }
}

/// Dispatch over the same rule list agrees under the two configurations.
proof fn lemma_try_same(
    rules: Seq<InlineRuleName>,
    md1: MarkdownIt,
    md2: MarkdownIt,
    i: int,
    s: Seq<char>,
    p: int,
    max: int,
    fm: Option<FmModel>,
)
    requires
        removal_ok(md1, md2, i, s, max),
    ensures
        spec_try(rules, md1, s, p, max, fm) == spec_try(rules, md2, s, p, max, fm),
    decreases max - p, 1int, rules.len(),
{
    if rules.len() == 0 || !(0 <= p < s.len()) {
    } else if spec_marker(rules[0]) == s[p] {
        lemma_attempt_same(rules[0], md1, md2, i, s, p, max, fm);
        let (res, fm2) = spec_attempt(rules[0], md1, s, p, max, fm);
        match res {
            Some(v) => {
            },
            None => {
                lemma_try_same(rules.drop_first(), md1, md2, i, s, p, max, fm2);
            },
        }
    } else {
        lemma_try_same(rules.drop_first(), md1, md2, i, s, p, max, fm);
    }
}

/// Dropping the absent-marker rule from the attempted list leaves the
/// dispatch unchanged at every position before `max`.
proof fn lemma_try_removed(
    rules: Seq<InlineRuleName>,
    j: int,
    md1: MarkdownIt,
    md2: MarkdownIt,
    i: int,
    s: Seq<char>,
    p: int,
    max: int,
    fm: Option<FmModel>,
)
    requires
        removal_ok(md1, md2, i, s, max),
        0 <= j < rules.len(),
        rules[j] == md1.inline_rules@[i],
        0 <= p < max,
    ensures
        spec_try(rules, md1, s, p, max, fm) == spec_try(rules.remove(j), md2, s, p, max, fm),
    decreases max - p, 1int, rules.len() + 1,
{
    if !(p < s.len()) {
        assert(spec_try(rules, md1, s, p, max, fm) == (None::<(NodeModel, int)>, fm));
        assert(spec_try(rules.remove(j), md2, s, p, max, fm) == (
            None::<(NodeModel, int)>,
            fm,
        ));
    } else if j == 0 {
        assert(spec_marker(rules[0]) != s[p]);
        assert(rules.remove(0) =~= rules.drop_first());
        lemma_try_same(rules.drop_first(), md1, md2, i, s, p, max, fm);
    } else {
        assert(rules.remove(j)[0] == rules[0]);
        assert(rules.remove(j).drop_first() =~= rules.drop_first().remove(j - 1));
        lemma_attempt_same(rules[0], md1, md2, i, s, p, max, fm);
        if spec_marker(rules[0]) == s[p] {
            let (res, fm2) = spec_attempt(rules[0], md1, s, p, max, fm);
            match res {
                Some(v) => {
                },
                None => {
                    lemma_try_removed(rules.drop_first(), j - 1, md1, md2, i, s, p, max, fm2);
                },
            }
        } else {
            lemma_try_removed(rules.drop_first(), j - 1, md1, md2, i, s, p, max, fm);
        }
    }
}

/// No paragraph anywhere in these subtrees contains the character `c`.
pub open spec fn no_marker_in_paragraphs(models: Seq<NodeModel>, c: char) -> bool
    decreases models, 0int,
{
    if models.len() == 0 {
        true
    } else {
        no_marker_in_node(models[0], c) && no_marker_in_paragraphs(models.drop_first(), c)
    }
}

/// No paragraph in this subtree contains the character `c`.
pub open spec fn no_marker_in_node(nm: NodeModel, c: char) -> bool
    decreases nm, 1int,
{
    &&& (nm.value matches ValueModel::Paragraph(raw) ==> forall|k: int|
        0 <= k < raw.len() ==> raw[k] != c)
    &&& no_marker_in_paragraphs(nm.children, c)
}

/// Idempotent no-match, at the inline pass: when a rule's trigger marker
/// occurs in no paragraph of the tree, removing the rule from the
/// registry leaves the whole inline pass unchanged.  Together with the
/// block stage never consulting the inline registry, this lifts the
/// tokenizer-level statement to the pass over a parsed block tree.
pub proof fn lemma_unused_rule_same_pass(
    md1: MarkdownIt,
    md2: MarkdownIt,
    i: int,
    models: Seq<NodeModel>,
    fm: Option<FmModel>,
)
    requires
        same_but_inline(md1, md2),
        0 <= i < md1.inline_rules@.len(),
        md2.inline_rules@ == md1.inline_rules@.remove(i),
        no_marker_in_paragraphs(models, spec_marker(md1.inline_rules@[i])),
    ensures
        spec_pass_seq(md1, models, fm) == spec_pass_seq(md2, models, fm),
    decreases models, 0int,
{
    if models.len() > 0 {
        lemma_unused_rule_same_pass_node(md1, md2, i, models[0], fm);
        let (first1, fm2) = spec_pass_node(md1, models[0], fm);
        lemma_unused_rule_same_pass(md1, md2, i, models.drop_first(), fm2);
    }
}

proof fn lemma_unused_rule_same_pass_node(
    md1: MarkdownIt,
    md2: MarkdownIt,
    i: int,
    nm: NodeModel,
    fm: Option<FmModel>,
)
    requires
        same_but_inline(md1, md2),
        0 <= i < md1.inline_rules@.len(),
        md2.inline_rules@ == md1.inline_rules@.remove(i),
        no_marker_in_node(nm, spec_marker(md1.inline_rules@[i])),
    ensures
        spec_pass_node(md1, nm, fm) == spec_pass_node(md2, nm, fm),
    decreases nm, 1int,
{
    match nm.value {
        ValueModel::Paragraph(raw) => {
            lemma_unused_rule_same_tok(md1, md2, i, raw, 0, raw.len() as int, fm, 0);
        },
        _ => {
            lemma_unused_rule_same_pass(md1, md2, i, nm.children, fm);
        },
    }
}

/// A freshly built rule node with no attributes and no children has the
/// leaf model of its payload.
proof fn lemma_leaf(n: Node)
    requires
        n.attrs@.len() == 0,
        n.children@.len() == 0,
    ensures
        n.to_model() == leaf_model(crate::node::value_model(n.value)),
{
    assert(crate::node::attr_model(n.attrs@) =~= Seq::<(Seq<char>, Seq<char>)>::empty());
    assert(seq_model(n.children@) =~= Seq::<NodeModel>::empty());
    assert(n.to_model() =~= leaf_model(crate::node::value_model(n.value)));
}

/// Emits the pending text span `[a, b)` as one text node.
fn flush_text(src: &str, a: usize, b: usize, out: &mut Vec<Node>)
    requires
        a <= b <= src@.len(),
    ensures
        old(out)@.is_prefix_of(final(out)@),
        seq_model(final(out)@) == seq_model(old(out)@) + text_model(src@, a as int, b as int),
{
    if a < b {
        let content = src.substring_char(a, b).to_owned();
        let node = Node::new(NodeValue::Text(crate::node::Text { content }));
        proof {
            assert(crate::node::attr_model(node.attrs@) =~= Seq::<(Seq<char>, Seq<char>)>::empty());
            assert(seq_model(node.children@) =~= Seq::<NodeModel>::empty());
            assert(node.to_model() =~= leaf_model(
                ValueModel::Text(src@.subrange(a as int, b as int)),
            ));
            crate::node::lemma_seq_model_push(out@, node);
        }
        out.push(node);
        proof {
            assert(old(out)@.is_prefix_of(out@));
            assert(seq_model(out@) =~= seq_model(old(out)@) + text_model(
                src@,
                a as int,
                b as int,
            ));
        }
    } else {
        proof {
            assert(seq_model(out@) =~= seq_model(old(out)@) + text_model(
                src@,
                a as int,
                b as int,
            ));
        }
    }
}

/// Tokenizes `src[pos..pos_max]` into inline nodes appended to `out`:
/// the appended nodes and the resulting footnote state are exactly what
/// the tokenization model `spec_tok` yields for the span.
#[verifier::rlimit(100)]
pub fn tokenize(
    md: &MarkdownIt,
    src: &str,
    pos: usize,
    pos_max: usize,
    ext: &mut ExtSet,
    out: &mut Vec<Node>,
)
    requires
        pos <= pos_max <= src@.len(),
        old(ext).wf(),
    ensures
        final(ext).wf(),
        final(ext).fence() == old(ext).fence(),
        old(out)@.is_prefix_of(final(out)@),
        seq_model(final(out)@) == seq_model(old(out)@) + spec_tok(
            *md,
            src@,
            pos as int,
            pos_max as int,
            old(ext).footnotes_model(),
            pos as int,
        ).0,
        final(ext).footnotes_model() == spec_tok(
            *md,
            src@,
            pos as int,
            pos_max as int,
            old(ext).footnotes_model(),
            pos as int,
        ).1,
    decreases pos_max - pos, 1int,
{
    let ghost full = spec_tok(
        *md,
        src@,
        pos as int,
        pos_max as int,
        old(ext).footnotes_model(),
        pos as int,
    );
    let mut p = pos;
    let mut text_start = pos;
    proof {
        assert(seq_model(out@) + full.0 =~= seq_model(old(out)@) + full.0);
    }
    while p < pos_max
        invariant
            pos <= text_start <= p <= pos_max <= src@.len(),
            ext.wf(),
            ext.fence() == old(ext).fence(),
            old(out)@.is_prefix_of(out@),
            full == spec_tok(
                *md,
                src@,
                pos as int,
                pos_max as int,
                old(ext).footnotes_model(),
                pos as int,
            ),
            ({
                let cur = spec_tok(
                    *md,
                    src@,
                    p as int,
                    pos_max as int,
                    ext.footnotes_model(),
                    text_start as int,
                );
                seq_model(out@) + cur.0 == seq_model(old(out)@) + full.0 && cur.1 == full.1
            }),
        decreases pos_max - p,
    {
        let c = src.get_char(p);
        let ghost fm_entry = ext.footnotes_model();
        let mut result: Option<(Node, usize)> = None;
        let nr = md.inline_rules.len();
        let mut ri: usize = 0;
        proof {
            assert(md.inline_rules@.skip(0) =~= md.inline_rules@);
        }
        loop
            invariant_except_break
                ri <= nr,
                nr == md.inline_rules@.len(),
                pos <= p < pos_max <= src@.len(),
                c == src@[p as int],
                ext.wf(),
                ext.fence() == old(ext).fence(),
                result is None,
                spec_try(md.inline_rules@, *md, src@, p as int, pos_max as int, fm_entry)
                    == spec_try(
                    md.inline_rules@.skip(ri as int),
                    *md,
                    src@,
                    p as int,
                    pos_max as int,
                    ext.footnotes_model(),
                ),
            ensures
                pos <= p < pos_max <= src@.len(),
                ext.wf(),
                ext.fence() == old(ext).fence(),
                match result {
                    Some((n, len)) => 1 <= len <= pos_max - p && spec_try(
                        md.inline_rules@,
                        *md,
                        src@,
                        p as int,
                        pos_max as int,
                        fm_entry,
                    ) == (Some((n.to_model(), len as int)), ext.footnotes_model()),
                    None => spec_try(
                        md.inline_rules@,
                        *md,
                        src@,
                        p as int,
                        pos_max as int,
                        fm_entry,
                    ) == (None::<(NodeModel, int)>, ext.footnotes_model()),
                },
            decreases nr - ri,
        {
            if ri >= nr {
                proof {
                    assert(md.inline_rules@.skip(ri as int)
                        =~= Seq::<InlineRuleName>::empty());
                    assert(spec_try(
                        Seq::<InlineRuleName>::empty(),
                        *md,
                        src@,
                        p as int,
                        pos_max as int,
                        ext.footnotes_model(),
                    ) == (None::<(NodeModel, int)>, ext.footnotes_model()));
                }
                break ;
            }
            let rule = md.inline_rules[ri];
            let ghost rules_sfx = md.inline_rules@.skip(ri as int);
            let ghost fm_before = ext.footnotes_model();
            proof {
                assert(rules_sfx[0] == md.inline_rules@[ri as int]);
                assert(rules_sfx.drop_first() =~= md.inline_rules@.skip(ri + 1));
            }
            if marker_of(rule) != c {
                proof {
                    assert(spec_try(
                        rules_sfx,
                        *md,
                        src@,
                        p as int,
                        pos_max as int,
                        ext.footnotes_model(),
                    ) == spec_try(
                        md.inline_rules@.skip(ri + 1),
                        *md,
                        src@,
                        p as int,
                        pos_max as int,
                        ext.footnotes_model(),
                    ));
                }
            }
            if marker_of(rule) == c {
                result = match rule {
                    InlineRuleName::Nl2Br => nl2br_run(src, p, pos_max),
                    InlineRuleName::ContactInfo => contact_run(src, p, pos_max),
                    InlineRuleName::FootnoteRef => footnote_ref_run(src, p, pos_max, ext),
                    InlineRuleName::InlineFootnote => inline_footnote_run(
                        md,
                        src,
                        p,
                        pos_max,
                        ext,
                    ),
                    InlineRuleName::MathDisplay => crate::math_display::math_display_run(
                        src,
                        p,
                        pos_max,
                    ),
                    InlineRuleName::MathInline => crate::math_inline::math_inline_run(
                        src,
                        p,
                        pos_max,
                    ),
                    InlineRuleName::Citation => crate::citation::citation_run(
                        md,
                        src,
                        p,
                        pos_max,
                    ),
                };
                proof {
                    let att = spec_attempt(rule, *md, src@, p as int, pos_max as int, fm_before);
                    match rule {
                        InlineRuleName::Nl2Br => {
                            if src@[p as int] == '\n' {
                                let (n, len) = result->Some_0;
                                lemma_leaf(n);
                            }
                        },
                        InlineRuleName::ContactInfo => {
                            if spec_contact_scan(src@, p as int, pos_max as int) is Some {
                                let (n, len) = result->Some_0;
                                lemma_leaf(n);
                            }
                        },
                        InlineRuleName::FootnoteRef => {
                        },
                        InlineRuleName::InlineFootnote => {
                        },
                        InlineRuleName::MathDisplay => {
                            if spec_display_math(src@, p as int, pos_max as int) is Some {
                                let (n, len) = result->Some_0;
                                lemma_leaf(n);
                            }
                        },
                        InlineRuleName::MathInline => {
                            if spec_inline_math(src@, p as int, pos_max as int) is Some {
                                let (n, len) = result->Some_0;
                                lemma_leaf(n);
                            }
                        },
                        InlineRuleName::Citation => {
                            if result is Some {
                                let (n, len) = result->Some_0;
                                lemma_leaf(n);
                            }
                        },
                    }
                    assert(att == (
                        match result {
                            Some((n, len)) => Some((n.to_model(), len as int)),
                            None => None,
                        },
                        ext.footnotes_model(),
                    ));
                    if result is Some {
                        let (n, len) = result->Some_0;
                        assert(spec_try(
                            rules_sfx,
                            *md,
                            src@,
                            p as int,
                            pos_max as int,
                            fm_before,
                        ) == (Some((n.to_model(), len as int)), ext.footnotes_model()));
                    } else {
                        assert(spec_try(
                            rules_sfx,
                            *md,
                            src@,
                            p as int,
                            pos_max as int,
                            fm_before,
                        ) == spec_try(
                            md.inline_rules@.skip(ri + 1),
                            *md,
                            src@,
                            p as int,
                            pos_max as int,
                            ext.footnotes_model(),
                        ));
                    }
                }
                if result.is_some() {
                    proof {
                        let (n, len) = result->Some_0;
                        assert(spec_try(
                            md.inline_rules@,
                            *md,
                            src@,
                            p as int,
                            pos_max as int,
                            fm_entry,
                        ) == (Some((n.to_model(), len as int)), ext.footnotes_model()));
                    }
                    break ;
                }
            }
            ri = ri + 1;
        }
        match result {
            Some((node, len)) => {
                proof {
                    assert(spec_try(
                        md.inline_rules@,
                        *md,
                        src@,
                        p as int,
                        pos_max as int,
                        fm_entry,
                    ) == (Some((node.to_model(), len as int)), ext.footnotes_model()));
                }
                flush_text(src, text_start, p, out);
                proof {
                    crate::node::lemma_seq_model_push(out@, node);
                }
                out.push(node);
                proof {
                    assert(old(out)@.is_prefix_of(out@));
                    let cur0 = spec_tok(
                        *md,
                        src@,
                        p as int,
                        pos_max as int,
                        fm_entry,
                        text_start as int,
                    );
                    let next = spec_tok(
                        *md,
                        src@,
                        p + len,
                        pos_max as int,
                        ext.footnotes_model(),
                        p + len,
                    );
                    assert(cur0.0 =~= text_model(src@, text_start as int, p as int) + seq![
                        node.to_model(),
                    ] + next.0);
                    assert(cur0.1 == next.1);
                    assert(seq_model(out@) + next.0 =~= seq_model(old(out)@) + full.0);
                }
                p = p + len;
                text_start = p;
            },
            None => {
                proof {
                    assert(md.inline_rules@.skip(nr as int)
                        =~= Seq::<InlineRuleName>::empty());
                    assert(spec_try(
                        Seq::<InlineRuleName>::empty(),
                        *md,
                        src@,
                        p as int,
                        pos_max as int,
                        ext.footnotes_model(),
                    ) == (None::<(NodeModel, int)>, ext.footnotes_model()));
                    assert(spec_try(
                        md.inline_rules@,
                        *md,
                        src@,
                        p as int,
                        pos_max as int,
                        fm_entry,
                    ) == (None::<(NodeModel, int)>, ext.footnotes_model()));
                    let cur0 = spec_tok(
                        *md,
                        src@,
                        p as int,
                        pos_max as int,
                        fm_entry,
                        text_start as int,
                    );
                    let next = spec_tok(
                        *md,
                        src@,
                        p + 1,
                        pos_max as int,
                        ext.footnotes_model(),
                        text_start as int,
                    );
                    assert(cur0.0 =~= next.0);
                    assert(cur0.1 == next.1);
                }
                p = p + 1;
            },
        }
    }
    flush_text(src, text_start, pos_max, out);
    proof {
        assert(seq_model(out@) =~= seq_model(old(out)@) + full.0);
    }
}

/// The whole-document inline pass: walks the tree and replaces each
/// paragraph's raw source text with its parsed inline children.
#[verifier::loop_isolation(false)]
pub fn inline_pass(md: &MarkdownIt, node: Node, ext: &mut ExtSet) -> (r: Node)
    requires
        old(ext).wf(),
    ensures
        final(ext).wf(),
        final(ext).fence() == old(ext).fence(),
        r.value is Paragraph <==> node.value is Paragraph,
        !(node.value is Paragraph) ==> r.value == node.value,
        r.attrs@ == node.attrs@,
        r.srcmap == node.srcmap,
        r.ext == node.ext,
        r.to_model() == spec_pass_node(*md, node.to_model(), old(ext).footnotes_model()).0,
        final(ext).footnotes_model() == spec_pass_node(
            *md,
            node.to_model(),
            old(ext).footnotes_model(),
        ).1,
    decreases node,
{
    let ghost n0 = node;
    let Node { value, attrs, children, srcmap, ext: node_ext } = node;
    match value {
        NodeValue::Paragraph(p) => {
            let raw = p.raw;
            let n = raw.as_str().unicode_len();
            let mut kids: Vec<Node> = Vec::new();
            tokenize(md, raw.as_str(), 0, n, ext, &mut kids);
            let r = Node {
                value: NodeValue::Paragraph(crate::node::Paragraph { raw: String::new() }),
                attrs,
                children: kids,
                srcmap,
                ext: node_ext,
            };
            proof {
                assert(seq_model(Seq::<Node>::empty()) =~= Seq::<NodeModel>::empty());
                assert(r.to_model() =~= spec_pass_node(
                    *md,
                    n0.to_model(),
                    old(ext).footnotes_model(),
                ).0);
            }
            r
        },
        other => {
            let mut rest = children;
            let mut new_children: Vec<Node> = Vec::new();
            let ghost total = n0.children@.len();
            let ghost cm = seq_model(n0.children@);
            let ghost fm0 = ext.footnotes_model();
            let ghost mut k: int = 0;
            proof {
                crate::node::lemma_seq_model_len(n0.children@);
                crate::node::lemma_seq_model_skip(n0.children@, 0);
                assert(n0.children@.skip(0) =~= n0.children@);
                assert(seq_model(new_children@) =~= Seq::<NodeModel>::empty());
                assert(seq_model(new_children@) + spec_pass_seq(*md, cm.skip(0), fm0).0
                    =~= spec_pass_seq(*md, cm, fm0).0);
            }
            while rest.len() > 0
                invariant
                    ext.wf(),
                    ext.fence() == old(ext).fence(),
                    0 <= k <= total,
                    total == n0.children@.len(),
                    cm == seq_model(n0.children@),
                    cm.len() == total,
                    fm0 == old(ext).footnotes_model(),
                    rest@ == n0.children@.skip(k),
                    seq_model(new_children@) + spec_pass_seq(
                        *md,
                        cm.skip(k),
                        ext.footnotes_model(),
                    ).0 == spec_pass_seq(*md, cm, fm0).0,
                    spec_pass_seq(*md, cm.skip(k), ext.footnotes_model()).1 == spec_pass_seq(
                        *md,
                        cm,
                        fm0,
                    ).1,
                decreases rest@.len(),
            {
                proof {
                    assert(rest@[0] == n0.children@[k]);
                    crate::node::lemma_seq_model_index(n0.children@, k);
                    assert(cm.skip(k)[0] == cm[k]);
                    assert(cm.skip(k).drop_first() =~= cm.skip(k + 1));
                }
                let c = rest.remove(0);
                proof {
                    assert(c == n0.children@[k]);
                    assert(decreases_to!(n0 => n0.children@[k]));
                    assert(decreases_to!(n0 => c));
                }
                let ghost fm_here = ext.footnotes_model();
                let processed = inline_pass(md, c, ext);
                proof {
                    crate::node::lemma_seq_model_push(new_children@, processed);
                }
                new_children.push(processed);
                proof {
                    assert(rest@ =~= n0.children@.skip(k + 1));
                    assert(processed.to_model() == spec_pass_node(*md, cm[k], fm_here).0);
                    assert(seq_model(new_children@) + spec_pass_seq(
                        *md,
                        cm.skip(k + 1),
                        ext.footnotes_model(),
                    ).0 =~= spec_pass_seq(*md, cm, fm0).0);
                }
                proof {
                    k = k + 1;
                }
            }
            let r = Node { value: other, attrs, children: new_children, srcmap, ext: node_ext };
            proof {
                assert(cm.skip(total as int) =~= Seq::<NodeModel>::empty());
                assert(seq_model(new_children@) =~= spec_pass_seq(*md, cm, fm0).0);
                assert(r.to_model() =~= spec_pass_node(*md, n0.to_model(), fm0).0);
            }
            r
        },
    }
}

} // verus!
