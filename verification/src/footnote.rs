//! Footnote bookkeeping: the root-scoped map from definition labels to
//! definition ids and from definition ids to the references that cite them.
//!
//! Definition ids and reference ids are allocated from two monotonic
//! counters.  A label can be defined once: later definitions of the same
//! label are rejected, so the first definition wins.  A reference can only
//! be added for a label that is already defined.
use crate::parser::BlockRuleName;
use crate::parser::CoreRuleName;
use crate::parser::InlineRuleName;
use crate::parser::MarkdownIt;
use vstd::prelude::*;
use vstd::string::*;

verus! {

/// Registers the whole footnote plugin: definitions, references, inline
/// footnotes, and the collection pass.
pub fn add(md: &mut MarkdownIt)
    ensures
        final(md).block_rules@ == old(md).block_rules@.push(BlockRuleName::FootnoteDef),
        final(md).inline_rules@ == old(md).inline_rules@.push(InlineRuleName::FootnoteRef).push(
            InlineRuleName::InlineFootnote,
        ),
        final(md).core_rules@ == old(md).core_rules@.push(CoreRuleName::FootnoteCollect),
        final(md).ext == old(md).ext,
{
    crate::footnote_definitions::add(md);
    crate::footnote_references::add(md);
    crate::footnote_inline::add(md);
    crate::footnote_collect::add(md);
}

/// First definition id registered under `label`, if any.
pub open spec fn spec_def_of(s: Seq<(String, usize)>, label: Seq<char>) -> Option<usize>
    decreases s.len(),
{
    if s.len() == 0 {
        None
    } else if s[0].0@ == label {
        Some(s[0].1)
    } else {
        spec_def_of(s.drop_first(), label)
    }
}

/// Reference ids recorded under definition id `d`, if any.
pub open spec fn spec_refs_of(s: Seq<(usize, Vec<usize>)>, d: usize) -> Seq<usize>
    decreases s.len(),
{
    if s.len() == 0 {
        Seq::empty()
    } else if s[0].0 == d {
        s[0].1@
    } else {
        spec_refs_of(s.drop_first(), d)
    }
}

proof fn lemma_def_of_found(s: Seq<(String, usize)>, label: Seq<char>, i: int)
    requires
        0 <= i < s.len(),
        s[i].0@ == label,
        forall|j: int| 0 <= j < i ==> s[j].0@ != label,
    ensures
        spec_def_of(s, label) == Some(s[i].1),
    decreases i,
{
    if i > 0 {
        lemma_def_of_found(s.drop_first(), label, i - 1);
    }
}

proof fn lemma_def_of_absent(s: Seq<(String, usize)>, label: Seq<char>)
    requires
        forall|j: int| 0 <= j < s.len() ==> s[j].0@ != label,
    ensures
        spec_def_of(s, label) is None,
    decreases s.len(),
{
    if s.len() > 0 {
        lemma_def_of_absent(s.drop_first(), label);
    }
}

proof fn lemma_def_of_push(s: Seq<(String, usize)>, label: Seq<char>, p: (String, usize))
    ensures
        spec_def_of(s.push(p), label) == if spec_def_of(s, label) is Some {
            spec_def_of(s, label)
        } else if p.0@ == label {
            Some(p.1)
        } else {
            None
        },
    decreases s.len(),
{
    if s.len() == 0 {
        assert(s.push(p)[0] == p);
        assert(s.push(p).drop_first() =~= Seq::<(String, usize)>::empty());
        assert(spec_def_of(Seq::<(String, usize)>::empty(), label) is None);
    } else {
        lemma_def_of_push(s.drop_first(), label, p);
        assert(s.push(p)[0] == s[0]);
        assert(s.push(p).drop_first() =~= s.drop_first().push(p));
    }
}

proof fn lemma_refs_of_found(s: Seq<(usize, Vec<usize>)>, d: usize, i: int)
    requires
        0 <= i < s.len(),
        s[i].0 == d,
        forall|j: int| 0 <= j < i ==> s[j].0 != d,
    ensures
        spec_refs_of(s, d) == s[i].1@,
    decreases i,
{
    if i > 0 {
        lemma_refs_of_found(s.drop_first(), d, i - 1);
    }
}

proof fn lemma_refs_of_absent(s: Seq<(usize, Vec<usize>)>, d: usize)
    requires
        forall|j: int| 0 <= j < s.len() ==> s[j].0 != d,
    ensures
        spec_refs_of(s, d) == Seq::<usize>::empty(),
    decreases s.len(),
{
    if s.len() > 0 {
        lemma_refs_of_absent(s.drop_first(), d);
    }
}

proof fn lemma_refs_of_push(s: Seq<(usize, Vec<usize>)>, d: usize, p: (usize, Vec<usize>))
    ensures
        spec_refs_of(s.push(p), d) == if exists|j: int| 0 <= j < s.len() && s[j].0 == d {
            spec_refs_of(s, d)
        } else if p.0 == d {
            p.1@
        } else {
            Seq::<usize>::empty()
        },
    decreases s.len(),
{
    if s.len() == 0 {
        assert(s.push(p)[0] == p);
        assert(s.push(p).drop_first() =~= Seq::<(usize, Vec<usize>)>::empty());
        assert(spec_refs_of(Seq::<(usize, Vec<usize>)>::empty(), d) == Seq::<usize>::empty());
    } else {
        lemma_refs_of_push(s.drop_first(), d, p);
        assert(s.push(p)[0] == s[0]);
        assert(s.push(p).drop_first() =~= s.drop_first().push(p));
        if s[0].0 != d {
            assert((exists|j: int| 0 <= j < s.len() && s[j].0 == d) <==> (exists|j: int|
                0 <= j < s.drop_first().len() && s.drop_first()[j] == s[j + 1] && s.drop_first()[
                    j
                ].0 == d)) by {
                if exists|j: int| 0 <= j < s.len() && s[j].0 == d {
                    let j = choose|j: int| 0 <= j < s.len() && s[j].0 == d;
                    assert(s.drop_first()[j - 1] == s[j]);
                }
            }
        }
    }
}

proof fn lemma_refs_of_update(s: Seq<(usize, Vec<usize>)>, d: usize, i: int, p: (usize, Vec<usize>))
    requires
        0 <= i < s.len(),
        s[i].0 == d,
        p.0 == d,
        forall|j: int| 0 <= j < s.len() && j != i ==> s[j].0 != d,
    ensures
        spec_refs_of(s.update(i, p), d) == p.1@,
        forall|e: usize| e != d ==> spec_refs_of(s.update(i, p), e) == spec_refs_of(s, e),
    decreases s.len(),
{
    let t = s.update(i, p);
    assert(forall|j: int| 0 <= j < i ==> t[j].0 != d);
    lemma_refs_of_found(t, d, i);
    assert forall|e: usize| e != d implies spec_refs_of(t, e) == spec_refs_of(s, e) by {
        lemma_refs_of_agree(s, t, e);
    }
}

proof fn lemma_refs_of_agree(s: Seq<(usize, Vec<usize>)>, t: Seq<(usize, Vec<usize>)>, e: usize)
    requires
        s.len() == t.len(),
        forall|j: int| 0 <= j < s.len() && s[j].0 != e ==> t[j].0 == s[j].0,
        forall|j: int| 0 <= j < s.len() && s[j].0 == e ==> t[j] == s[j],
        forall|j: int| 0 <= j < s.len() && t[j].0 == e ==> t[j] == s[j],
    ensures
        spec_refs_of(s, e) == spec_refs_of(t, e),
    decreases s.len(),
{
    if s.len() > 0 {
        assert(forall|j: int|
            0 <= j < s.drop_first().len() ==> s.drop_first()[j] == s[j + 1] && t.drop_first()[j]
                == t[j + 1]);
        lemma_refs_of_agree(s.drop_first(), t.drop_first(), e);
    }
}

proof fn lemma_refs_nonempty_key(s: Seq<(usize, Vec<usize>)>, d: usize)
    requires
        spec_refs_of(s, d).len() > 0,
    ensures
        exists|i: int| 0 <= i < s.len() && #[trigger] s[i].0 == d,
    decreases s.len(),
{
    if s.len() > 0 {
        if s[0].0 == d {
        } else {
            lemma_refs_nonempty_key(s.drop_first(), d);
            let i = choose|i: int| 0 <= i < s.drop_first().len() && #[trigger] s.drop_first()[i].0 == d;
            assert(s[i + 1].0 == d);
        }
    }
}

/// The mathematical state of a footnote map: the two counters, the
/// label-to-definition registrations and the per-definition reference
/// lists, in registration order.
#[verifier::ext_equal]
pub struct FmModel {
    pub defs: int,
    pub refs: int,
    pub labels: Seq<(Seq<char>, usize)>,
    pub cites: Seq<(usize, Seq<usize>)>,
}

/// The model of a map with nothing registered.
pub open spec fn fm_empty() -> FmModel {
    FmModel { defs: 0, refs: 0, labels: Seq::empty(), cites: Seq::empty() }
}

/// First definition id registered under `label` in a model.
pub open spec fn model_def_of(labels: Seq<(Seq<char>, usize)>, label: Seq<char>) -> Option<usize>
    decreases labels.len(),
{
    if labels.len() == 0 {
        None
    } else if labels[0].0 == label {
        Some(labels[0].1)
    } else {
        model_def_of(labels.drop_first(), label)
    }
}

/// Reference ids recorded under definition id `d` in a model.
pub open spec fn model_refs_of(cites: Seq<(usize, Seq<usize>)>, d: usize) -> Seq<usize>
    decreases cites.len(),
{
    if cites.len() == 0 {
        Seq::empty()
    } else if cites[0].0 == d {
        cites[0].1
    } else {
        model_refs_of(cites.drop_first(), d)
    }
}

/// `rid` recorded under `d`: appended to the first list keyed `d`, or as
/// a fresh last entry when none exists.
pub open spec fn model_push_cite(
    cites: Seq<(usize, Seq<usize>)>,
    d: usize,
    rid: usize,
) -> Seq<(usize, Seq<usize>)>
    decreases cites.len(),
{
    if cites.len() == 0 {
        seq![(d, seq![rid])]
    } else if cites[0].0 == d {
        seq![(d, cites[0].1.push(rid))] + cites.drop_first()
    } else {
        seq![cites[0]] + model_push_cite(cites.drop_first(), d, rid)
    }
}

/// What registering a definition does to the model: a fresh id for an
/// unseen label, no change for a duplicate or an exhausted counter.
pub open spec fn spec_add_def(m: FmModel, label: Seq<char>) -> (FmModel, Option<usize>) {
    if model_def_of(m.labels, label) is Some || m.defs >= usize::MAX {
        (m, None)
    } else {
        let id = (m.defs + 1) as usize;
        (
            FmModel {
                defs: m.defs + 1,
                refs: m.refs,
                labels: m.labels.push((label, id)),
                cites: m.cites,
            },
            Some(id),
        )
    }
}

/// What adding a reference does to the model: a fresh reference id
/// recorded under the label's definition, no change for an unknown label
/// or an exhausted counter.
pub open spec fn spec_add_ref(m: FmModel, label: Seq<char>) -> (FmModel, Option<(usize, usize)>) {
    match model_def_of(m.labels, label) {
        None => (m, None),
        Some(d) => if m.refs >= usize::MAX {
            (m, None)
        } else {
            let rid = (m.refs + 1) as usize;
            (
                FmModel {
                    defs: m.defs,
                    refs: m.refs + 1,
                    labels: m.labels,
                    cites: model_push_cite(m.cites, d, rid),
                },
                Some((d, rid)),
            )
        },
    }
}

/// What an inline definition does to the model: a fresh id pair,
/// atomically, with the reference recorded as a fresh last entry.
pub open spec fn spec_add_inline(m: FmModel) -> (FmModel, (usize, usize)) {
    let d = (m.defs + 1) as usize;
    let rid = (m.refs + 1) as usize;
    (
        FmModel {
            defs: m.defs + 1,
            refs: m.refs + 1,
            labels: m.labels,
            cites: m.cites.push((d, seq![rid])),
        },
        (d, rid),
    )
}

proof fn lemma_model_def_of_push(
    labels: Seq<(Seq<char>, usize)>,
    l: Seq<char>,
    p: (Seq<char>, usize),
)
    ensures
        model_def_of(labels.push(p), l) == if model_def_of(labels, l) is Some {
            model_def_of(labels, l)
        } else if p.0 == l {
            Some(p.1)
        } else {
            None
        },
    decreases labels.len(),
{
    if labels.len() == 0 {
        assert(labels.push(p)[0] == p);
        assert(labels.push(p).drop_first() =~= Seq::<(Seq<char>, usize)>::empty());
        assert(model_def_of(Seq::<(Seq<char>, usize)>::empty(), l) is None);
    } else {
        lemma_model_def_of_push(labels.drop_first(), l, p);
        assert(labels.push(p)[0] == labels[0]);
        assert(labels.push(p).drop_first() =~= labels.drop_first().push(p));
    }
}

/// Duplicate-label policy: after a label's first registration, a second
/// registration of the same label is rejected and changes nothing, the
/// label resolves to the first registration's id, and a reference taken
/// against it cites exactly that id.
pub proof fn lemma_first_definition_wins(m: FmModel, label: Seq<char>)
    requires
        model_def_of(m.labels, label) is None,
        m.defs < usize::MAX,
    ensures
        ({
            let (m1, r1) = spec_add_def(m, label);
            let (m2, r2) = spec_add_def(m1, label);
            &&& r1 == Some((m.defs + 1) as usize)
            &&& model_def_of(m1.labels, label) == r1
            &&& r2 is None
            &&& m2 == m1
            &&& (m1.refs < usize::MAX ==> spec_add_ref(m1, label).1 == Some(
                (((m.defs + 1) as usize), ((m1.refs + 1) as usize)),
            ))
        }),
{
    lemma_model_def_of_push(m.labels, label, (label, (m.defs + 1) as usize));
}

/// The label views of a label registration list.
pub open spec fn label_views(s: Seq<(String, usize)>) -> Seq<(Seq<char>, usize)> {
    s.map_values(|p: (String, usize)| (p.0@, p.1))
}

/// The list views of a reference record list.
pub open spec fn cite_views(s: Seq<(usize, Vec<usize>)>) -> Seq<(usize, Seq<usize>)> {
    s.map_values(|p: (usize, Vec<usize>)| (p.0, p.1@))
}

proof fn lemma_def_of_model(s: Seq<(String, usize)>, l: Seq<char>)
    ensures
        spec_def_of(s, l) == model_def_of(label_views(s), l),
    decreases s.len(),
{
    if s.len() > 0 {
        lemma_def_of_model(s.drop_first(), l);
        assert(label_views(s).drop_first() =~= label_views(s.drop_first()));
    } else {
        assert(label_views(s) =~= Seq::<(Seq<char>, usize)>::empty());
    }
}

proof fn lemma_refs_of_model(s: Seq<(usize, Vec<usize>)>, d: usize)
    ensures
        spec_refs_of(s, d) == model_refs_of(cite_views(s), d),
    decreases s.len(),
{
    if s.len() > 0 {
        lemma_refs_of_model(s.drop_first(), d);
        assert(cite_views(s).drop_first() =~= cite_views(s.drop_first()));
    } else {
        assert(cite_views(s) =~= Seq::<(usize, Seq<usize>)>::empty());
    }
}

proof fn lemma_push_cite_update(s: Seq<(usize, Vec<usize>)>, d: usize, rid: usize, i: int)
    requires
        0 <= i < s.len(),
        s[i].0 == d,
        forall|j: int| 0 <= j < i ==> s[j].0 != d,
    ensures
        model_push_cite(cite_views(s), d, rid) == cite_views(
            s.update(i, (d, s[i].1)),
        ).update(i, (d, s[i].1@.push(rid))),
    decreases i,
{
    if i == 0 {
        assert(cite_views(s)[0] == (s[0].0, s[0].1@));
        assert(model_push_cite(cite_views(s), d, rid) =~= cite_views(
            s.update(0, (d, s[0].1)),
        ).update(0, (d, s[0].1@.push(rid))));
    } else {
        lemma_push_cite_update(s.drop_first(), d, rid, i - 1);
        assert(cite_views(s).drop_first() =~= cite_views(s.drop_first()));
        assert(model_push_cite(cite_views(s), d, rid) =~= cite_views(
            s.update(i, (d, s[i].1)),
        ).update(i, (d, s[i].1@.push(rid))));
    }
}

proof fn lemma_push_cite_append(s: Seq<(usize, Vec<usize>)>, d: usize, rid: usize)
    requires
        forall|j: int| 0 <= j < s.len() ==> s[j].0 != d,
    ensures
        model_push_cite(cite_views(s), d, rid) == cite_views(s).push((d, seq![rid])),
    decreases s.len(),
{
    if s.len() == 0 {
        assert(cite_views(s) =~= Seq::<(usize, Seq<usize>)>::empty());
        assert(model_push_cite(cite_views(s), d, rid) =~= cite_views(s).push((d, seq![rid])));
    } else {
        lemma_push_cite_append(s.drop_first(), d, rid);
        assert(cite_views(s).drop_first() =~= cite_views(s.drop_first()));
        assert(model_push_cite(cite_views(s), d, rid) =~= cite_views(s).push((d, seq![rid])));
    }
}

/// The set of parsed footnote definition labels together with the
/// reference ids that cite each definition, stored in the document root.
pub struct FootnoteMap {
    def_counter: usize,
    ref_counter: usize,
    label_to_def: Vec<(String, usize)>,
    def_to_refs: Vec<(usize, Vec<usize>)>,
}

impl FootnoteMap {
    /// The mathematical state of this map.
    pub closed spec fn model(self) -> FmModel {
        FmModel {
            defs: self.def_counter as int,
            refs: self.ref_counter as int,
            labels: label_views(self.label_to_def@),
            cites: cite_views(self.def_to_refs@),
        }
    }

    /// The opaque accessors agree with the model.
    pub proof fn lemma_model_agrees(self)
        ensures
            self.defs() == self.model().defs,
            self.refs() == self.model().refs,
            forall|l: Seq<char>| self.def_of(l) == model_def_of(self.model().labels, l),
            forall|d: usize| self.refs_of(d) == model_refs_of(self.model().cites, d),
    {
        assert forall|l: Seq<char>| self.def_of(l) == model_def_of(self.model().labels, l) by {
            lemma_def_of_model(self.label_to_def@, l);
        }
        assert forall|d: usize| self.refs_of(d) == model_refs_of(self.model().cites, d) by {
            lemma_refs_of_model(self.def_to_refs@, d);
        }
    }

    /// First definition id registered under `label`, if any.
    pub closed spec fn def_of(self, label: Seq<char>) -> Option<usize> {
        spec_def_of(self.label_to_def@, label)
    }

    /// Reference ids recorded for definition id `d`, in allocation order.
    pub closed spec fn refs_of(self, d: usize) -> Seq<usize> {
        spec_refs_of(self.def_to_refs@, d)
    }

    pub closed spec fn defs(self) -> int {
        self.def_counter as int
    }

    pub closed spec fn refs(self) -> int {
        self.ref_counter as int
    }

    /// Well-formedness: labels and definition ids are registered at most
    /// once, all ids are covered by the two counters, and every recorded
    /// reference list is nonempty.
    pub closed spec fn wf(self) -> bool {
        &&& forall|i: int, j: int|
            0 <= i < j < self.label_to_def@.len() ==> self.label_to_def@[i].0@
                != self.label_to_def@[j].0@
        &&& forall|i: int, j: int|
            0 <= i < j < self.def_to_refs@.len() ==> self.def_to_refs@[i].0
                != self.def_to_refs@[j].0
        &&& forall|i: int|
            0 <= i < self.label_to_def@.len() ==> 1 <= #[trigger] self.label_to_def@[i].1
                <= self.def_counter
        &&& forall|i: int|
            0 <= i < self.def_to_refs@.len() ==> 1 <= #[trigger] self.def_to_refs@[i].0
                <= self.def_counter
        &&& forall|i: int|
            0 <= i < self.def_to_refs@.len() ==> #[trigger] self.def_to_refs@[i].1@.len() > 0
        &&& forall|i: int, k: int|
            0 <= i < self.def_to_refs@.len() && 0 <= k < self.def_to_refs@[i].1@.len() ==> 1 <= #[trigger] self.def_to_refs@[i].1@[k]
                <= self.ref_counter
    }

    /// Both id counters are machine words.
    pub proof fn lemma_id_bounds(self)
        ensures
            0 <= self.defs() <= usize::MAX,
            0 <= self.refs() <= usize::MAX,
    {
    }

    /// Whether both id counters can still allocate a fresh id.
    pub open spec fn spec_can_alloc(self) -> bool {
        self.defs() < usize::MAX && self.refs() < usize::MAX
    }

    /// Reports whether both id counters can still allocate a fresh id.
    pub fn can_alloc(&self) -> (r: bool)
        ensures
            r == self.spec_can_alloc(),
    {
        self.def_counter < usize::MAX && self.ref_counter < usize::MAX
    }

    /// An empty map with both counters at zero.
    pub fn new() -> (m: FootnoteMap)
        ensures
            m.wf(),
            m.defs() == 0,
            m.refs() == 0,
            forall|l: Seq<char>| m.def_of(l) is None,
            forall|d: usize| m.refs_of(d) == Seq::<usize>::empty(),
            m.model() == fm_empty(),
    {
        let m = FootnoteMap {
            def_counter: 0,
            ref_counter: 0,
            label_to_def: Vec::new(),
            def_to_refs: Vec::new(),
        };
        proof {
            assert forall|l: Seq<char>| m.def_of(l) is None by {
                lemma_def_of_absent(m.label_to_def@, l);
            }
            assert forall|d: usize| m.refs_of(d) == Seq::<usize>::empty() by {
                lemma_refs_of_absent(m.def_to_refs@, d);
            }
            assert(label_views(m.label_to_def@) =~= Seq::<(Seq<char>, usize)>::empty());
            assert(cite_views(m.def_to_refs@) =~= Seq::<(usize, Seq<usize>)>::empty());
        }
        m
    }

    fn find_label(&self, label: &String) -> (r: Option<usize>)
        ensures
            r == self.def_of(label@),
            r is None ==> forall|j: int|
                0 <= j < self.label_to_def@.len() ==> self.label_to_def@[j].0@ != label@,
            r matches Some(d) ==> exists|j: int|
                0 <= j < self.label_to_def@.len() && #[trigger] self.label_to_def@[j].1 == d,
    {
        let mut i: usize = 0;
        let n = self.label_to_def.len();
        while i < n
            invariant
                i <= n,
                n == self.label_to_def@.len(),
                forall|j: int| 0 <= j < i ==> self.label_to_def@[j].0@ != label@,
            decreases n - i,
        {
            if self.label_to_def[i].0 == *label {
                proof {
                    lemma_def_of_found(self.label_to_def@, label@, i as int);
                }
                return Some(self.label_to_def[i].1);
            }
            i = i + 1;
        }
        proof {
            lemma_def_of_absent(self.label_to_def@, label@);
        }
        None
    }

    /// Create an id for the definition; return None and leave the map
    /// unchanged when a definition already exists for the label (the first
    /// definition wins) or when the id space is exhausted.
    pub fn add_def(&mut self, label: &str) -> (r: Option<usize>)
        requires
            old(self).wf(),
        ensures
            final(self).wf(),
            old(self).def_of(label@) is Some || old(self).defs() == usize::MAX ==> r is None
                && *final(self) == *old(self),
            old(self).def_of(label@) is None && old(self).defs() < usize::MAX ==> {
                &&& r == Some((old(self).defs() + 1) as usize)
                &&& final(self).defs() == old(self).defs() + 1
                &&& final(self).refs() == old(self).refs()
                &&& final(self).def_of(label@) == Some((old(self).defs() + 1) as usize)
                &&& forall|l: Seq<char>|
                    l != label@ ==> final(self).def_of(l) == old(self).def_of(l)
                &&& forall|d: usize| final(self).refs_of(d) == old(self).refs_of(d)
            },
            ({
                let (m2, res) = spec_add_def(old(self).model(), label@);
                final(self).model() == m2 && r == res
            }),
    {
        let owned = String::from_str(label);
        proof {
            old(self).lemma_model_agrees();
        }
        if self.find_label(&owned).is_some() {
            return None;
        }
        if self.def_counter == usize::MAX {
            return None;
        }
        self.def_counter = self.def_counter + 1;
        let id = self.def_counter;
        proof {
            lemma_def_of_push(self.label_to_def@, label@, (owned, id));
            assert forall|l: Seq<char>| l != label@ implies spec_def_of(
                self.label_to_def@.push((owned, id)),
                l,
            ) == spec_def_of(self.label_to_def@, l) by {
                lemma_def_of_push(self.label_to_def@, l, (owned, id));
            }
        }
        let ghost before = self.label_to_def@;
        self.label_to_def.push((owned, id));
        proof {
            assert(label_views(self.label_to_def@) =~= label_views(before).push((label@, id)));
            assert(final(self).model() == spec_add_def(old(self).model(), label@).0);
        }
        Some(id)
    }

    fn find_refs_index(&self, d: usize) -> (r: Option<usize>)
        ensures
            match r {
                Some(i) => i < self.def_to_refs@.len() && self.def_to_refs@[i as int].0 == d
                    && forall|j: int| 0 <= j < i ==> self.def_to_refs@[j].0 != d,
                None => forall|j: int| 0 <= j < self.def_to_refs@.len() ==> self.def_to_refs@[j].0 != d,
            },
    {
        let mut i: usize = 0;
        let n = self.def_to_refs.len();
        while i < n
            invariant
                i <= n,
                n == self.def_to_refs@.len(),
                forall|j: int| 0 <= j < i ==> self.def_to_refs@[j].0 != d,
            decreases n - i,
        {
            if self.def_to_refs[i].0 == d {
                return Some(i);
            }
            i = i + 1;
        }
        None
    }

    /// Reports whether a reference for `label` would be accepted: the
    /// label is defined and the reference counter can still allocate.
    pub fn would_accept_ref(&self, label: &str) -> (r: bool)
        ensures
            r == (self.def_of(label@) is Some && self.refs() < usize::MAX),
    {
        let owned = String::from_str(label);
        self.find_label(&owned).is_some() && self.ref_counter < usize::MAX
    }

    /// Create an id for the reference and return (def_id, ref_id); return
    /// None and leave the map unchanged when no definition exists for the
    /// label or when the id space is exhausted.
    pub fn add_ref(&mut self, label: &str) -> (r: Option<(usize, usize)>)
        requires
            old(self).wf(),
        ensures
            final(self).wf(),
            old(self).def_of(label@) is None || old(self).refs() == usize::MAX ==> r is None
                && *final(self) == *old(self),
            old(self).def_of(label@) is Some && old(self).refs() < usize::MAX ==> {
                let d = old(self).def_of(label@)->Some_0;
                let rid = (old(self).refs() + 1) as usize;
                &&& r == Some((d, rid))
                &&& final(self).refs() == old(self).refs() + 1
                &&& final(self).defs() == old(self).defs()
                &&& forall|l: Seq<char>| final(self).def_of(l) == old(self).def_of(l)
                &&& final(self).refs_of(d) == old(self).refs_of(d).push(rid)
                &&& forall|e: usize| e != d ==> final(self).refs_of(e) == old(self).refs_of(e)
            },
            ({
                let (m2, res) = spec_add_ref(old(self).model(), label@);
                final(self).model() == m2 && r == res
            }),
    {
        let owned = String::from_str(label);
        proof {
            old(self).lemma_model_agrees();
        }
        let found = self.find_label(&owned);
        match found {
            None => None,
            Some(d) => {
                if self.ref_counter == usize::MAX {
                    return None;
                }
                self.ref_counter = self.ref_counter + 1;
                let rid = self.ref_counter;
                let idx = self.find_refs_index(d);
                match idx {
                    Some(i) => {
                        proof {
                            lemma_refs_of_found(self.def_to_refs@, d, i as int);
                        }
                        let mut entry = self.def_to_refs[i].1.clone();
                        assert(entry@ == self.def_to_refs@[i as int].1@);
                        entry.push(rid);
                        let ghost before = self.def_to_refs@;
                        self.def_to_refs[i] = (d, entry);
                        proof {
                            assert(self.def_to_refs@ =~= before.update(i as int, (d, self.def_to_refs@[i as int].1)));
                            lemma_push_cite_update(before, d, rid, i as int);
                            assert(before.update(i as int, (d, before[i as int].1)) =~= before);
                            assert(cite_views(self.def_to_refs@) =~= cite_views(before).update(
                                i as int,
                                (d, before[i as int].1@.push(rid)),
                            ));
                            assert(cite_views(self.def_to_refs@) =~= model_push_cite(
                                cite_views(before),
                                d,
                                rid,
                            ));
                            lemma_refs_of_update(
                                before,
                                d,
                                i as int,
                                (d, self.def_to_refs@[i as int].1),
                            );
                            assert(forall|x: int, y: int|
                                0 <= x < y < self.def_to_refs@.len() ==> self.def_to_refs@[x].0
                                    != self.def_to_refs@[y].0);
                            assert(forall|x: int|
                                0 <= x < self.def_to_refs@.len() ==> 1 <= #[trigger] self.def_to_refs@[x].0
                                    <= self.def_counter);
                            assert(forall|x: int|
                                0 <= x < self.def_to_refs@.len() ==> #[trigger] self.def_to_refs@[x].1@.len()
                                    > 0);
                            assert(forall|x: int, k: int|
                                0 <= x < self.def_to_refs@.len() && 0 <= k
                                    < self.def_to_refs@[x].1@.len() ==> 1 <= #[trigger] self.def_to_refs@[x].1@[k]
                                    <= self.ref_counter);
                        }
                        Some((d, rid))
                    },
                    None => {
                        let mut fresh: Vec<usize> = Vec::new();
                        fresh.push(rid);
                        proof {
                            lemma_refs_of_absent(self.def_to_refs@, d);
                            lemma_refs_of_push(self.def_to_refs@, d, (d, fresh));
                            assert forall|e: usize| e != d implies spec_refs_of(
                                self.def_to_refs@.push((d, fresh)),
                                e,
                            ) == spec_refs_of(self.def_to_refs@, e) by {
                                lemma_refs_of_push(self.def_to_refs@, e, (d, fresh));
                                if !(exists|j: int|
                                    0 <= j < self.def_to_refs@.len() && self.def_to_refs@[j].0
                                        == e) {
                                    lemma_refs_of_absent(self.def_to_refs@, e);
                                }
                            }
                            assert(self.refs_of(d) == Seq::<usize>::empty());
                            assert(Seq::<usize>::empty().push(rid) =~= fresh@);
                            lemma_push_cite_append(self.def_to_refs@, d, rid);
                        }
                        let ghost before = self.def_to_refs@;
                        self.def_to_refs.push((d, fresh));
                        proof {
                            assert(cite_views(self.def_to_refs@) =~= cite_views(before).push(
                                (d, seq![rid]),
                            ));
                        }
                        Some((d, rid))
                    },
                }
            },
        }
    }

    /// Add an inline (anonymous) definition and return the fresh
    /// (def_id, ref_id) pair, allocated atomically.
    pub fn add_inline_def(&mut self) -> (r: (usize, usize))
        requires
            old(self).wf(),
            old(self).spec_can_alloc(),
        ensures
            final(self).wf(),
            r == (((old(self).defs() + 1) as usize), ((old(self).refs() + 1) as usize)),
            final(self).defs() == old(self).defs() + 1,
            final(self).refs() == old(self).refs() + 1,
            forall|l: Seq<char>| final(self).def_of(l) == old(self).def_of(l),
            final(self).refs_of(r.0) == seq![r.1],
            forall|e: usize| e != r.0 ==> final(self).refs_of(e) == old(self).refs_of(e),
            final(self).model() == spec_add_inline(old(self).model()).0,
            r == spec_add_inline(old(self).model()).1,
    {
        self.def_counter = self.def_counter + 1;
        self.ref_counter = self.ref_counter + 1;
        let d = self.def_counter;
        let rid = self.ref_counter;
        let mut fresh: Vec<usize> = Vec::new();
        fresh.push(rid);
        proof {
            lemma_refs_of_absent(self.def_to_refs@, d);
            lemma_refs_of_push(self.def_to_refs@, d, (d, fresh));
            assert forall|e: usize| e != d implies spec_refs_of(
                self.def_to_refs@.push((d, fresh)),
                e,
            ) == spec_refs_of(self.def_to_refs@, e) by {
                lemma_refs_of_push(self.def_to_refs@, e, (d, fresh));
                if !(exists|j: int|
                    0 <= j < self.def_to_refs@.len() && self.def_to_refs@[j].0 == e) {
                    lemma_refs_of_absent(self.def_to_refs@, e);
                }
            }
            assert(fresh@ =~= seq![rid]);
        }
        let ghost before = self.def_to_refs@;
        self.def_to_refs.push((d, fresh));
        proof {
            assert(cite_views(self.def_to_refs@) =~= cite_views(before).push((d, seq![rid])));
        }
        (d, rid)
    }

    /// Every definition id that carries at least one reference was
    /// allocated by the definition counter: a reference can only cite a
    /// definition that exists.
    pub proof fn lemma_cited_id_allocated(self, d: usize)
        requires
            self.wf(),
            self.refs_of(d).len() > 0,
        ensures
            1 <= d <= self.defs(),
    {
        lemma_refs_nonempty_key(self.def_to_refs@, d);
    }

    /// Return the ids of all references to the given definition id, in
    /// allocation order; empty when the definition has no reference.
    pub fn referenced_by(&self, def_id: usize) -> (r: Vec<usize>)
        ensures
            r@ == self.refs_of(def_id),
    {
        let idx = self.find_refs_index(def_id);
        match idx {
            Some(i) => {
                proof {
                    lemma_refs_of_found(self.def_to_refs@, def_id, i as int);
                }
                self.def_to_refs[i].1.clone()
            },
            None => {
                proof {
                    lemma_refs_of_absent(self.def_to_refs@, def_id);
                }
                Vec::new()
            },
        }
    }
}

} // verus!
