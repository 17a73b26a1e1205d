//! The wire-level attribute-value model: a tagged union in which exactly one
//! variant is populated, together with the keyed aggregate [`AttrMap`] that
//! forms the root of every encoded item.
//!
//! [`AttrV`] is the spec-level mirror of [`AttributeValue`] (sequences in
//! place of vectors and strings); [`AttrMap`] is an association vector with
//! unique keys, whose view is the sequence of its entries' views.

use vstd::prelude::*;

verus! {

/// Spec-level attribute value: the mathematical model of a wire value.
pub enum AttrV {
    /// Text value.
    S(Seq<char>),
    /// Numeric value, transported as its base-10 string form.
    N(Seq<char>),
    /// Boolean value.
    Bool(bool),
    /// Marker for absence or unit; carries no payload.
    Null,
    /// Byte-string value.
    B(Seq<u8>),
    /// Ordered sequence of attribute values.
    L(Seq<AttrV>),
    /// Keyed aggregate of attribute values.
    M(Seq<(Seq<char>, AttrV)>),
    /// Set of text values.
    SS(Seq<Seq<char>>),
    /// Set of numeric values in base-10 string form.
    NS(Seq<Seq<char>>),
    /// Set of byte-string values.
    BS(Seq<Seq<u8>>),
}

/// Wire-level attribute value: a tagged union with exactly one populated
/// variant, as the store's low-level item format requires.
#[derive(Debug)]
pub enum AttributeValue {
    /// Text value.
    S(String),
    /// Numeric value, transported as its base-10 string form.
    N(String),
    /// Boolean value.
    Bool(bool),
    /// Marker for absence or unit; carries no payload.
    Null,
    /// Byte-string value.
    B(Vec<u8>),
    /// Ordered sequence of attribute values.
    L(Vec<AttributeValue>),
    /// Keyed aggregate of attribute values.
    M(AttrMap),
    /// Set of text values.
    SS(Vec<String>),
    /// Set of numeric values in base-10 string form.
    NS(Vec<String>),
    /// Set of byte-string values.
    BS(Vec<Vec<u8>>),
}

/// A mapping from string keys to attribute values, kept as an association
/// vector in insertion order with unique keys.
#[derive(Debug)]
pub struct AttrMap {
    /// The entries, in insertion order; keys are unique.
    pub entries: Vec<(String, AttributeValue)>,
}

/// The model of one attribute value.
pub open spec fn av_view(a: AttributeValue) -> AttrV
    decreases a,
{
    match a {
        AttributeValue::S(s) => AttrV::S(s@),
        AttributeValue::N(s) => AttrV::N(s@),
        AttributeValue::Bool(b) => AttrV::Bool(b),
        AttributeValue::Null => AttrV::Null,
        AttributeValue::B(b) => AttrV::B(b@),
        AttributeValue::L(l) => AttrV::L(avs_view(l@)),
        AttributeValue::M(m) => AttrV::M(entries_view(m.entries@)),
        AttributeValue::SS(v) => AttrV::SS(v@.map_values(|s: String| s@)),
        AttributeValue::NS(v) => AttrV::NS(v@.map_values(|s: String| s@)),
        AttributeValue::BS(v) => AttrV::BS(v@.map_values(|b: Vec<u8>| b@)),
    }
}

/// The model of a sequence of attribute values, element by element.
pub open spec fn avs_view(s: Seq<AttributeValue>) -> Seq<AttrV>
    decreases s,
{
    if s.len() == 0 {
        Seq::empty()
    } else {
        seq![av_view(s[0])] + avs_view(s.drop_first())
    }
}

/// The model of a sequence of keyed entries, entry by entry.
pub open spec fn entries_view(s: Seq<(String, AttributeValue)>) -> Seq<(Seq<char>, AttrV)>
    decreases s,
{
    if s.len() == 0 {
        Seq::empty()
    } else {
        seq![(s[0].0@, av_view(s[0].1))] + entries_view(s.drop_first())
    }
}

impl View for AttributeValue {
    type V = AttrV;

    open spec fn view(&self) -> AttrV {
        av_view(*self)
    }
}

impl View for AttrMap {
    type V = Seq<(Seq<char>, AttrV)>;

    open spec fn view(&self) -> Seq<(Seq<char>, AttrV)> {
        entries_view(self.entries@)
    }
}

/// `avs_view` maps its argument pointwise.
pub proof fn lemma_avs_view(s: Seq<AttributeValue>)
    ensures
        avs_view(s).len() == s.len(),
        forall|i: int| 0 <= i < s.len() ==> avs_view(s)[i] == av_view(s[i]),
    decreases s.len(),
{
    if s.len() > 0 {
        lemma_avs_view(s.drop_first());
    }
}

/// `entries_view` maps its argument pointwise.
pub proof fn lemma_entries_view(s: Seq<(String, AttributeValue)>)
    ensures
        entries_view(s).len() == s.len(),
        forall|i: int| 0 <= i < s.len() ==> entries_view(s)[i] == (s[i].0@, av_view(s[i].1)),
    decreases s.len(),
{
    if s.len() > 0 {
        lemma_entries_view(s.drop_first());
    }
}

/// Whether `m` holds an entry under `key`.
pub open spec fn map_has(m: Seq<(Seq<char>, AttrV)>, key: Seq<char>) -> bool {
    exists|i: int| 0 <= i < m.len() && m[i].0 == key
}

/// The value under `key` in `m`: the first entry with that key, if any.
pub open spec fn map_get(m: Seq<(Seq<char>, AttrV)>, key: Seq<char>) -> Option<AttrV>
    decreases m.len(),
{
    if m.len() == 0 {
        Option::None
    } else if m[0].0 == key {
        Option::Some(m[0].1)
    } else {
        map_get(m.drop_first(), key)
    }
}

/// `m` with `key` bound to `value`: replaced in place if present, appended
/// otherwise.
pub open spec fn map_set(m: Seq<(Seq<char>, AttrV)>, key: Seq<char>, value: AttrV) -> Seq<
    (Seq<char>, AttrV),
>
    decreases m.len(),
{
    if m.len() == 0 {
        seq![(key, value)]
    } else if m[0].0 == key {
        seq![(key, value)] + m.drop_first()
    } else {
        seq![m[0]] + map_set(m.drop_first(), key, value)
    }
}

/// The keys of `m` are pairwise distinct.
pub open spec fn keys_unique(m: Seq<(Seq<char>, AttrV)>) -> bool {
    forall|i: int, j: int| 0 <= i < j < m.len() ==> m[i].0 != m[j].0
}

/// `map_get` finds an entry exactly when one exists.
pub proof fn lemma_map_get_has(m: Seq<(Seq<char>, AttrV)>, key: Seq<char>)
    ensures
        map_get(m, key) is Some <==> map_has(m, key),
    decreases m.len(),
{
    if m.len() > 0 && m[0].0 != key {
        lemma_map_get_has(m.drop_first(), key);
        assert(map_has(m, key) <==> map_has(m.drop_first(), key)) by {
            if map_has(m, key) {
                let i = choose|i: int| 0 <= i < m.len() && m[i].0 == key;
                assert(m.drop_first()[i - 1] == m[i]);
            }
            if map_has(m.drop_first(), key) {
                let i = choose|i: int|
                    0 <= i < m.drop_first().len() && m.drop_first()[i].0 == key;
                assert(m[i + 1].0 == key);
            }
        }
    }
}

/// When `m[i]` is the first entry with key `key`, `map_get` returns its value.
pub proof fn lemma_map_get_index(m: Seq<(Seq<char>, AttrV)>, key: Seq<char>, i: int)
    requires
        0 <= i < m.len(),
        m[i].0 == key,
        forall|j: int| 0 <= j < i ==> m[j].0 != key,
    ensures
        map_get(m, key) == Option::Some(m[i].1),
    decreases i,
{
    if i > 0 {
        assert(m.drop_first()[i - 1] == m[i]);
        assert(forall|j: int| 0 <= j < i - 1 ==> m.drop_first()[j] == m[j + 1]);
        lemma_map_get_index(m.drop_first(), key, i - 1);
    }
}

/// When no entry has key `key`, `map_set` appends.
pub proof fn lemma_map_set_absent(m: Seq<(Seq<char>, AttrV)>, key: Seq<char>, value: AttrV)
    requires
        forall|j: int| 0 <= j < m.len() ==> m[j].0 != key,
    ensures
        map_set(m, key, value) =~= m.push((key, value)),
    decreases m.len(),
{
    if m.len() > 0 {
        lemma_map_set_absent(m.drop_first(), key, value);
    }
}

/// When `m[i]` is the first entry with key `key`, `map_set` updates it in
/// place.
pub proof fn lemma_map_set_present(m: Seq<(Seq<char>, AttrV)>, key: Seq<char>, value: AttrV, i: int)
    requires
        0 <= i < m.len(),
        m[i].0 == key,
        forall|j: int| 0 <= j < i ==> m[j].0 != key,
    ensures
        map_set(m, key, value) =~= m.update(i, (key, value)),
    decreases i,
{
    if i > 0 {
        assert(m.drop_first()[i - 1] == m[i]);
        assert(forall|j: int| 0 <= j < i - 1 ==> m.drop_first()[j] == m[j + 1]);
        lemma_map_set_present(m.drop_first(), key, value, i - 1);
        assert(map_set(m, key, value) =~= m.update(i, (key, value)));
    }
}


/// A concatenation keeps keys unique when each part does and their key sets
/// are disjoint.
pub proof fn lemma_keys_unique_concat(m1: Seq<(Seq<char>, AttrV)>, m2: Seq<(Seq<char>, AttrV)>)
    requires
        keys_unique(m1),
        keys_unique(m2),
        forall|i: int, j: int| 0 <= i < m1.len() && 0 <= j < m2.len() ==> m1[i].0 != m2[j].0,
    ensures
        keys_unique(m1 + m2),
{
    assert forall|i: int, j: int| 0 <= i < j < (m1 + m2).len() implies (m1 + m2)[i].0 != (m1
        + m2)[j].0 by {
        if j < m1.len() {
            assert((m1 + m2)[i] == m1[i] && (m1 + m2)[j] == m1[j]);
        } else if i >= m1.len() {
            assert((m1 + m2)[i] == m2[i - m1.len()] && (m1 + m2)[j] == m2[j - m1.len()]);
        } else {
            assert((m1 + m2)[i] == m1[i] && (m1 + m2)[j] == m2[j - m1.len()]);
        }
    }
}

impl AttrMap {
    /// The keys of this map are pairwise distinct.
    pub open spec fn wf(&self) -> bool {
        keys_unique(self@)
    }

    /// An empty map.
    pub fn new() -> (r: AttrMap)
        ensures
            r@ =~= Seq::<(Seq<char>, AttrV)>::empty(),
            r.wf(),
    {
        AttrMap { entries: Vec::new() }
    }

    /// The number of entries.
    pub fn len(&self) -> (r: usize)
        ensures
            r == self@.len(),
    {
        proof {
            lemma_entries_view(self.entries@);
        }
        self.entries.len()
    }

    /// The position of the first entry stored under `key`, if any.
    pub fn index_of(&self, key: &String) -> (r: Option<usize>)
        ensures
            match r {
                Option::Some(i) => i < self@.len() && self@[i as int].0 == key@ && forall|j: int|
                    0 <= j < i ==> self@[j].0 != key@,
                Option::None => forall|j: int| 0 <= j < self@.len() ==> self@[j].0 != key@,
            },
    {
        proof {
            lemma_entries_view(self.entries@);
        }
        let n = self.entries.len();
        for i in 0..n
            invariant
                n == self.entries.len(),
                self@.len() == n,
                forall|k: int| 0 <= k < self@.len() ==> self@[k] == (
                    self.entries@[k].0@,
                    av_view(self.entries@[k].1),
                ),
                forall|j: int| 0 <= j < i ==> self@[j].0 != key@,
        {
            if self.entries[i].0 == *key {
                return Option::Some(i);
            }
        }
        Option::None
    }

    /// The value stored under `key`, if any.
    pub fn get(&self, key: &String) -> (r: Option<&AttributeValue>)
        ensures
            match r {
                Option::Some(a) => map_get(self@, key@) == Option::Some(a@),
                Option::None => map_get(self@, key@) is None,
            },
    {
        match self.index_of(key) {
            Option::Some(i) => {
                proof {
                    lemma_map_get_index(self@, key@, i as int);
                    lemma_entries_view(self.entries@);
                }
                Option::Some(&self.entries[i].1)
            },
            Option::None => {
                proof {
                    lemma_map_get_has(self@, key@);
                }
                Option::None
            },
        }
    }

    /// Binds `key` to `value`: replaces the entry in place when the key is
    /// present, appends otherwise.
    pub fn insert(&mut self, key: String, value: AttributeValue)
        ensures
            final(self)@ =~= map_set(old(self)@, key@, value@),
            old(self).wf() ==> final(self).wf(),
    {
        proof {
            lemma_entries_view(self.entries@);
        }
        match self.index_of(&key) {
            Option::Some(i) => {
                proof {
                    lemma_map_set_present(self@, key@, value@, i as int);
                }
                self.entries[i] = (key, value);
                proof {
                    lemma_entries_view(self.entries@);
                    assert(self.entries@ =~= old(self).entries@.update(i as int, (key, value)));
                    assert(self@ =~= old(self)@.update(i as int, (key@, value@)));
                }
            },
            Option::None => {
                proof {
                    lemma_map_set_absent(self@, key@, value@);
                }
                self.entries.push((key, value));
                proof {
                    lemma_entries_view(self.entries@);
                    assert(self.entries@ =~= old(self).entries@.push((key, value)));
                    assert(self@ =~= old(self)@.push((key@, value@)));
                }
            },
        }
    }
}

} // verus!
