//! Type-keyed extension state.
//!
//! A store holds at most one value of each state type; state of one type is
//! invisible to, and cannot collide with, state of an unrelated type.  One
//! store instance is attached to each node, one to the document root, and
//! one to the parser configuration.  Verified code has no open-world type
//! identity, so the store is keyed by a closed key enum with one typed
//! accessor pair per state type; `insert` fully replaces the prior value of
//! that type, and reading a type that was never inserted yields `None`.
use crate::citation::CitationSettings;
use crate::fence::FenceSettings;
use crate::footnote::FmModel;
use crate::footnote::FootnoteMap;
use vstd::prelude::*;

verus! {

/// One value held by an extension-state store.
pub enum ExtValue {
    Footnotes(FootnoteMap),
    Fence(FenceSettings),
    Citations(CitationSettings),
}

/// The type identity of a stored value.
#[derive(PartialEq, Eq, Structural, Clone, Copy)]
pub enum ExtKey {
    Footnotes,
    Fence,
    Citations,
}

/// The type identity of `v`.
pub open spec fn ext_key(v: ExtValue) -> ExtKey {
    match v {
        ExtValue::Footnotes(_) => ExtKey::Footnotes,
        ExtValue::Fence(_) => ExtKey::Fence,
        ExtValue::Citations(_) => ExtKey::Citations,
    }
}

fn exec_ext_key(v: &ExtValue) -> (k: ExtKey)
    ensures
        k == ext_key(*v),
{
    match v {
        ExtValue::Footnotes(_) => ExtKey::Footnotes,
        ExtValue::Fence(_) => ExtKey::Fence,
        ExtValue::Citations(_) => ExtKey::Citations,
    }
}

/// First stored value with type identity `k`, if any.
pub open spec fn spec_find(s: Seq<ExtValue>, k: ExtKey) -> Option<ExtValue>
    decreases s.len(),
{
    if s.len() == 0 {
        None
    } else if ext_key(s[0]) == k {
        Some(s[0])
    } else {
        spec_find(s.drop_first(), k)
    }
}

proof fn lemma_find_found(s: Seq<ExtValue>, k: ExtKey, i: int)
    requires
        0 <= i < s.len(),
        ext_key(s[i]) == k,
        forall|j: int| 0 <= j < i ==> ext_key(s[j]) != k,
    ensures
        spec_find(s, k) == Some(s[i]),
    decreases i,
{
    if i > 0 {
        lemma_find_found(s.drop_first(), k, i - 1);
    }
}

proof fn lemma_find_absent(s: Seq<ExtValue>, k: ExtKey)
    requires
        forall|j: int| 0 <= j < s.len() ==> ext_key(s[j]) != k,
    ensures
        spec_find(s, k) is None,
    decreases s.len(),
{
    if s.len() > 0 {
        lemma_find_absent(s.drop_first(), k);
    }
}

proof fn lemma_find_push(s: Seq<ExtValue>, k: ExtKey, v: ExtValue)
    ensures
        spec_find(s.push(v), k) == if spec_find(s, k) is Some {
            spec_find(s, k)
        } else if ext_key(v) == k {
            Some(v)
        } else {
            None
        },
    decreases s.len(),
{
    if s.len() == 0 {
        assert(s.push(v)[0] == v);
        assert(s.push(v).drop_first() =~= Seq::<ExtValue>::empty());
        assert(spec_find(Seq::<ExtValue>::empty(), k) is None);
    } else {
        lemma_find_push(s.drop_first(), k, v);
        assert(s.push(v)[0] == s[0]);
        assert(s.push(v).drop_first() =~= s.drop_first().push(v));
    }
}

proof fn lemma_find_update(s: Seq<ExtValue>, i: int, v: ExtValue)
    requires
        0 <= i < s.len(),
        ext_key(s[i]) == ext_key(v),
        forall|j: int| 0 <= j < s.len() && j != i ==> ext_key(s[j]) != ext_key(v),
    ensures
        spec_find(s.update(i, v), ext_key(v)) == Some(v),
        forall|k: ExtKey|
            k != ext_key(v) ==> spec_find(s.update(i, v), k) == spec_find(s, k),
    decreases s.len(),
{
    let t = s.update(i, v);
    lemma_find_found(t, ext_key(v), i);
    assert forall|k: ExtKey| k != ext_key(v) implies spec_find(t, k) == spec_find(s, k) by {
        lemma_find_agree(s, t, k);
    }
}

proof fn lemma_find_agree(s: Seq<ExtValue>, t: Seq<ExtValue>, k: ExtKey)
    requires
        s.len() == t.len(),
        forall|j: int| 0 <= j < s.len() && ext_key(s[j]) == k ==> t[j] == s[j],
        forall|j: int| 0 <= j < s.len() && ext_key(t[j]) == k ==> t[j] == s[j],
    ensures
        spec_find(s, k) == spec_find(t, k),
    decreases s.len(),
{
    if s.len() > 0 {
        assert(forall|j: int|
            0 <= j < s.drop_first().len() ==> s.drop_first()[j] == s[j + 1] && t.drop_first()[j]
                == t[j + 1]);
        lemma_find_agree(s.drop_first(), t.drop_first(), k);
    }
}

proof fn lemma_find_remove(s: Seq<ExtValue>, i: int, k: ExtKey)
    requires
        0 <= i < s.len(),
        ext_key(s[i]) == k,
        forall|j: int| 0 <= j < s.len() && j != i ==> ext_key(s[j]) != k,
    ensures
        spec_find(s.remove(i), k) is None,
        forall|k2: ExtKey| k2 != k ==> spec_find(s.remove(i), k2) == spec_find(s, k2),
    decreases s.len(),
{
    let t = s.remove(i);
    assert(forall|j: int| 0 <= j < t.len() ==> t[j] == if j < i {
        s[j]
    } else {
        s[j + 1]
    });
    lemma_find_absent(t, k);
    assert forall|k2: ExtKey| k2 != k implies spec_find(t, k2) == spec_find(s, k2) by {
        lemma_find_remove_other(s, i, k, k2);
    }
}

proof fn lemma_find_key(s: Seq<ExtValue>, k: ExtKey)
    ensures
        spec_find(s, k) matches Some(v) ==> ext_key(v) == k,
    decreases s.len(),
{
    if s.len() > 0 && ext_key(s[0]) != k {
        lemma_find_key(s.drop_first(), k);
    }
}

proof fn lemma_find_remove_other(s: Seq<ExtValue>, i: int, k: ExtKey, k2: ExtKey)
    requires
        0 <= i < s.len(),
        ext_key(s[i]) == k,
        k2 != k,
    ensures
        spec_find(s.remove(i), k2) == spec_find(s, k2),
    decreases s.len(),
{
    let t = s.remove(i);
    if i == 0 {
        assert(t =~= s.drop_first());
    } else {
        assert(t[0] == s[0]);
        assert(t.drop_first() =~= s.drop_first().remove(i - 1));
        lemma_find_remove_other(s.drop_first(), i - 1, k, k2);
    }
}

/// A per-owner extension-state store.
pub struct ExtSet {
    entries: Vec<ExtValue>,
}

impl ExtSet {
    /// First stored value of type identity `k`, if any.
    pub closed spec fn spec_get(self, k: ExtKey) -> Option<ExtValue> {
        spec_find(self.entries@, k)
    }

    /// The stored footnote map, if any.
    pub open spec fn footnotes(self) -> Option<FootnoteMap> {
        match self.spec_get(ExtKey::Footnotes) {
            Some(ExtValue::Footnotes(m)) => Some(m),
            _ => None,
        }
    }

    /// The stored fence settings, if any.
    pub open spec fn fence(self) -> Option<FenceSettings> {
        match self.spec_get(ExtKey::Fence) {
            Some(ExtValue::Fence(f)) => Some(f),
            _ => None,
        }
    }

    /// The model of the stored footnote map, if any.
    pub open spec fn footnotes_model(self) -> Option<FmModel> {
        match self.footnotes() {
            Some(m) => Some(m.model()),
            None => None,
        }
    }

    /// The stored citation settings, if any.
    pub open spec fn citations(self) -> Option<CitationSettings> {
        match self.spec_get(ExtKey::Citations) {
            Some(ExtValue::Citations(c)) => Some(c),
            _ => None,
        }
    }

    /// Each type identity is stored at most once, a value is stored under
    /// its own type identity, and a stored footnote map is well formed.
    pub closed spec fn wf(self) -> bool {
        &&& forall|i: int, j: int|
            0 <= i < j < self.entries@.len() ==> ext_key(self.entries@[i]) != ext_key(
                self.entries@[j],
            )
        &&& match self.footnotes() {
            Some(m) => m.wf(),
            None => true,
        }
    }

    /// An empty store.
    pub fn new() -> (s: ExtSet)
        ensures
            s.wf(),
            forall|k: ExtKey| s.spec_get(k) is None,
            s.footnotes() is None,
            s.fence() is None,
            s.citations() is None,
    {
        let s = ExtSet { entries: Vec::new() };
        proof {
            assert forall|k: ExtKey| s.spec_get(k) is None by {
                lemma_find_absent(s.entries@, k);
            }
        }
        s
    }

    fn find_index(&self, k: ExtKey) -> (r: Option<usize>)
        ensures
            match r {
                Some(i) => i < self.entries@.len() && ext_key(self.entries@[i as int]) == k
                    && forall|j: int| 0 <= j < i ==> ext_key(self.entries@[j]) != k,
                None => forall|j: int| 0 <= j < self.entries@.len() ==> ext_key(self.entries@[j]) != k,
            },
    {
        let mut i: usize = 0;
        let n = self.entries.len();
        while i < n
            invariant
                i <= n,
                n == self.entries@.len(),
                forall|j: int| 0 <= j < i ==> ext_key(self.entries@[j]) != k,
            decreases n - i,
        {
            if exec_ext_key(&self.entries[i]) == k {
                return Some(i);
            }
            i = i + 1;
        }
        None
    }

    fn insert_value(&mut self, v: ExtValue)
        requires
            old(self).wf(),
            v matches ExtValue::Footnotes(m) ==> m.wf(),
        ensures
            final(self).wf(),
            final(self).spec_get(ext_key(v)) == Some(v),
            forall|k: ExtKey|
                k != ext_key(v) ==> final(self).spec_get(k) == old(self).spec_get(k),
    {
        let k = exec_ext_key(&v);
        let idx = self.find_index(k);
        match idx {
            Some(i) => {
                let ghost before = self.entries@;
                self.entries[i] = v;
                proof {
                    assert(self.entries@ =~= before.update(i as int, v));
                    lemma_find_update(before, i as int, v);
                }
            },
            None => {
                proof {
                    lemma_find_absent(self.entries@, k);
                    lemma_find_push(self.entries@, k, v);
                    assert forall|k2: ExtKey| k2 != k implies spec_find(
                        self.entries@.push(v),
                        k2,
                    ) == spec_find(self.entries@, k2) by {
                        lemma_find_push(self.entries@, k2, v);
                        if spec_find(self.entries@, k2) is None {
                        }
                    }
                }
                self.entries.push(v);
            },
        }
    }

    fn take_value(&mut self, k: ExtKey) -> (r: Option<ExtValue>)
        requires
            old(self).wf(),
        ensures
            final(self).wf(),
            r == old(self).spec_get(k),
            final(self).spec_get(k) is None,
            forall|k2: ExtKey| k2 != k ==> final(self).spec_get(k2) == old(self).spec_get(k2),
            old(self).spec_get(k) is None ==> *final(self) == *old(self),
    {
        let idx = self.find_index(k);
        match idx {
            Some(i) => {
                proof {
                    lemma_find_found(self.entries@, k, i as int);
                    lemma_find_remove(self.entries@, i as int, k);
                }
                let v = self.entries.remove(i);
                Some(v)
            },
            None => {
                proof {
                    lemma_find_absent(self.entries@, k);
                }
                None
            },
        }
    }

    /// Store `m` as the footnote map, replacing any prior one.
    pub fn insert_footnotes(&mut self, m: FootnoteMap)
        requires
            old(self).wf(),
            m.wf(),
        ensures
            final(self).wf(),
            final(self).footnotes() == Some(m),
            final(self).fence() == old(self).fence(),
    {
        self.insert_value(ExtValue::Footnotes(m));
    }

    /// Remove and return the stored footnote map, if any.
    pub fn take_footnotes(&mut self) -> (r: Option<FootnoteMap>)
        requires
            old(self).wf(),
        ensures
            final(self).wf(),
            r == old(self).footnotes(),
            final(self).footnotes() is None,
            final(self).fence() == old(self).fence(),
            r matches Some(m) ==> m.wf(),
            old(self).footnotes() is None ==> *final(self) == *old(self),
    {
        proof {
            lemma_find_key(self.entries@, ExtKey::Footnotes);
        }
        let v = self.take_value(ExtKey::Footnotes);
        match v {
            Some(ExtValue::Footnotes(m)) => Some(m),
            _ => None,
        }
    }

    /// Store `f` as the fence settings, replacing any prior ones.
    pub fn insert_fence(&mut self, f: FenceSettings)
        requires
            old(self).wf(),
        ensures
            final(self).wf(),
            final(self).fence() == Some(f),
            final(self).footnotes() == old(self).footnotes(),
    {
        self.insert_value(ExtValue::Fence(f));
    }

    /// Read the stored footnote map, if any.
    pub fn get_footnotes(&self) -> (r: Option<&FootnoteMap>)
        ensures
            match r {
                Some(m) => self.footnotes() == Some(*m),
                None => self.footnotes() is None,
            },
    {
        let idx = self.find_index(ExtKey::Footnotes);
        match idx {
            Some(i) => {
                proof {
                    lemma_find_found(self.entries@, ExtKey::Footnotes, i as int);
                }
                match &self.entries[i] {
                    ExtValue::Footnotes(m) => Some(m),
                    _ => None,
                }
            },
            None => {
                proof {
                    lemma_find_absent(self.entries@, ExtKey::Footnotes);
                }
                None
            },
        }
    }

    /// Store `c` as the citation settings, replacing any prior ones.
    pub fn insert_citations(&mut self, c: CitationSettings)
        requires
            old(self).wf(),
        ensures
            final(self).wf(),
            final(self).citations() == Some(c),
            final(self).footnotes() == old(self).footnotes(),
            final(self).fence() == old(self).fence(),
    {
        self.insert_value(ExtValue::Citations(c));
    }

    /// Read the stored citation settings, if any.
    pub fn get_citations(&self) -> (r: Option<&CitationSettings>)
        ensures
            match r {
                Some(c) => self.citations() == Some(*c),
                None => self.citations() is None,
            },
    {
        let idx = self.find_index(ExtKey::Citations);
        match idx {
            Some(i) => {
                proof {
                    lemma_find_found(self.entries@, ExtKey::Citations, i as int);
                }
                match &self.entries[i] {
                    ExtValue::Citations(c) => Some(c),
                    _ => None,
                }
            },
            None => {
                proof {
                    lemma_find_absent(self.entries@, ExtKey::Citations);
                }
                None
            },
        }
    }

    /// Read the stored fence settings, if any.
    pub fn get_fence(&self) -> (r: Option<&FenceSettings>)
        ensures
            match r {
                Some(f) => self.fence() == Some(*f),
                None => self.fence() is None,
            },
    {
        let idx = self.find_index(ExtKey::Fence);
        match idx {
            Some(i) => {
                proof {
                    lemma_find_found(self.entries@, ExtKey::Fence, i as int);
                }
                match &self.entries[i] {
                    ExtValue::Fence(f) => Some(f),
                    _ => None,
                }
            },
            None => {
                proof {
                    lemma_find_absent(self.entries@, ExtKey::Fence);
                }
                None
            },
        }
    }
}

} // verus!
