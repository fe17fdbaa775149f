//! The in-memory document: an `Ini` is a collection of named sections,
//! each an ordered collection of key/value string properties. Sections are
//! keyed by name and properties by key; both containers keep their entries
//! in strictly increasing lexicographic key order, so a document's content
//! determines its representation.

use vstd::prelude::*;

use crate::text::{lex_lt, lemma_lex_transitive, str_compare, str_eq};
use vstd::std_specs::cmp::PartialEqSpec;

verus! {

/// Strictly increasing key order: keys are unique and sorted.
pub open spec fn assoc_sorted<V>(ps: Seq<(Seq<char>, V)>) -> bool {
    forall|i: int, j: int| 0 <= i < j < ps.len() ==> lex_lt(ps[i].0, ps[j].0)
}

/// All keys distinct.
pub open spec fn assoc_keys_unique<V>(ps: Seq<(Seq<char>, V)>) -> bool {
    forall|i: int, j: int| 0 <= i < j < ps.len() ==> ps[i].0 != ps[j].0
}

/// The mapping an association sequence denotes; later entries win.
pub open spec fn assoc_map<V>(ps: Seq<(Seq<char>, V)>) -> Map<Seq<char>, V>
    decreases ps.len(),
{
    if ps.len() == 0 {
        Map::empty()
    } else {
        assoc_map(ps.drop_last()).insert(ps.last().0, ps.last().1)
    }
}

/// `lex_lt` is irreflexive.
pub proof fn lemma_lex_irrefl(a: Seq<char>)
    ensures
        !lex_lt(a, a),
    decreases a.len(),
{
    if a.len() > 0 {
        lemma_lex_irrefl(a.subrange(1, a.len() as int));
    }
}

/// Sorted keys are unique.
pub proof fn lemma_assoc_sorted_unique<V>(ps: Seq<(Seq<char>, V)>)
    requires
        assoc_sorted(ps),
    ensures
        assoc_keys_unique(ps),
{
    assert forall|i: int, j: int| 0 <= i < j < ps.len() implies ps[i].0 != ps[j].0 by {
        lemma_lex_irrefl(ps[i].0);
    }
}

/// A key is in the map exactly when some entry carries it.
pub proof fn lemma_assoc_map_contains<V>(ps: Seq<(Seq<char>, V)>)
    ensures
        forall|k: Seq<char>|
            #[trigger] assoc_map(ps).contains_key(k) <==> exists|i: int|
                0 <= i < ps.len() && ps[i].0 == k,
    decreases ps.len(),
{
    if ps.len() > 0 {
        let dl = ps.drop_last();
        lemma_assoc_map_contains(dl);
        assert forall|k: Seq<char>| #[trigger] assoc_map(ps).contains_key(k) implies exists|i: int|
            0 <= i < ps.len() && ps[i].0 == k by {
            if k == ps.last().0 {
                assert(ps[ps.len() - 1].0 == k);
            } else {
                assert(assoc_map(dl).contains_key(k));
                let i = choose|i: int| 0 <= i < dl.len() && dl[i].0 == k;
                assert(dl[i] == ps[i]);
                assert(ps[i].0 == k);
            }
        }
        assert forall|k: Seq<char>|
            (exists|i: int| 0 <= i < ps.len() && ps[i].0 == k) implies #[trigger] assoc_map(
            ps,
        ).contains_key(k) by {
            let i = choose|i: int| 0 <= i < ps.len() && ps[i].0 == k;
            if i < ps.len() - 1 {
                assert(dl[i].0 == k);
                assert(assoc_map(dl).contains_key(k));
            }
        }
    }
}

/// With unique keys, the map sends each entry's key to its value.
pub proof fn lemma_assoc_map_index<V>(ps: Seq<(Seq<char>, V)>, i: int)
    requires
        assoc_keys_unique(ps),
        0 <= i < ps.len(),
    ensures
        assoc_map(ps).contains_key(ps[i].0),
        assoc_map(ps)[ps[i].0] == ps[i].1,
    decreases ps.len(),
{
    if i == ps.len() - 1 {
    } else {
        let dl = ps.drop_last();
        assert(assoc_keys_unique(dl)) by {
            assert forall|x: int, y: int| 0 <= x < y < dl.len() implies dl[x].0 != dl[y].0 by {
                assert(dl[x] == ps[x] && dl[y] == ps[y]);
            }
        }
        assert(dl[i] == ps[i]);
        lemma_assoc_map_index(dl, i);
        assert(ps[i].0 != ps.last().0) by {
            assert(ps[ps.len() - 1] == ps.last());
        }
    }
}

/// Inserting an entry with a fresh key inserts it into the map.
pub proof fn lemma_assoc_insert<V>(ps: Seq<(Seq<char>, V)>, idx: int, k: Seq<char>, v: V)
    requires
        0 <= idx <= ps.len(),
        forall|i: int| 0 <= i < ps.len() ==> ps[i].0 != k,
    ensures
        assoc_map(ps.insert(idx, (k, v))) == assoc_map(ps).insert(k, v),
    decreases ps.len(),
{
    let ps2 = ps.insert(idx, (k, v));
    if idx == ps.len() {
        assert(ps2.drop_last() =~= ps);
        assert(ps2.last() == (k, v));
    } else {
        let dl = ps.drop_last();
        assert(ps2.drop_last() =~= dl.insert(idx, (k, v)));
        assert(ps2.last() == ps.last()) by {
            assert(ps2[ps2.len() - 1] == ps[ps.len() - 1]);
        }
        assert(forall|i: int| 0 <= i < dl.len() ==> dl[i] == ps[i]);
        lemma_assoc_insert(dl, idx, k, v);
        let lk = ps.last().0;
        let lv = ps.last().1;
        assert(ps[ps.len() - 1].0 == lk);
        assert(lk != k);
        assert(assoc_map(dl).insert(k, v).insert(lk, lv) =~= assoc_map(dl).insert(lk, lv).insert(
            k,
            v,
        ));
    }
}

/// Replacing the value at an index updates the map at that entry's key.
pub proof fn lemma_assoc_update<V>(ps: Seq<(Seq<char>, V)>, idx: int, v: V)
    requires
        assoc_keys_unique(ps),
        0 <= idx < ps.len(),
    ensures
        assoc_map(ps.update(idx, (ps[idx].0, v))) == assoc_map(ps).insert(ps[idx].0, v),
    decreases ps.len(),
{
    let k = ps[idx].0;
    let ps2 = ps.update(idx, (k, v));
    if idx == ps.len() - 1 {
        assert(ps2.drop_last() =~= ps.drop_last());
        assert(ps2.last() == (k, v));
        assert(ps.last().0 == k);
        assert(assoc_map(ps.drop_last()).insert(k, ps.last().1).insert(k, v) =~= assoc_map(
            ps.drop_last(),
        ).insert(k, v));
    } else {
        let dl = ps.drop_last();
        assert(assoc_keys_unique(dl)) by {
            assert forall|x: int, y: int| 0 <= x < y < dl.len() implies dl[x].0 != dl[y].0 by {
                assert(dl[x] == ps[x] && dl[y] == ps[y]);
            }
        }
        assert(dl[idx] == ps[idx]);
        assert(ps2.drop_last() =~= dl.update(idx, (k, v)));
        assert(ps2.last() == ps.last()) by {
            assert(ps2[ps.len() - 1] == ps[ps.len() - 1]);
        }
        lemma_assoc_update(dl, idx, v);
        let lk = ps.last().0;
        let lv = ps.last().1;
        assert(lk != k) by {
            assert(ps[ps.len() - 1].0 == lk);
        }
        assert(assoc_map(dl).insert(k, v).insert(lk, lv) =~= assoc_map(dl).insert(lk, lv).insert(
            k,
            v,
        ));
    }
}

/// Removing an entry removes its key from the map.
pub proof fn lemma_assoc_remove<V>(ps: Seq<(Seq<char>, V)>, idx: int)
    requires
        assoc_keys_unique(ps),
        0 <= idx < ps.len(),
    ensures
        assoc_map(ps.remove(idx)) == assoc_map(ps).remove(ps[idx].0),
    decreases ps.len(),
{
    let k = ps[idx].0;
    let ps2 = ps.remove(idx);
    let dl = ps.drop_last();
    assert(assoc_keys_unique(dl)) by {
        assert forall|x: int, y: int| 0 <= x < y < dl.len() implies dl[x].0 != dl[y].0 by {
            assert(dl[x] == ps[x] && dl[y] == ps[y]);
        }
    }
    if idx == ps.len() - 1 {
        assert(ps2 =~= dl);
        assert(ps[ps.len() - 1].0 == k);
        assert(!assoc_map(dl).contains_key(k)) by {
            lemma_assoc_map_contains(dl);
            assert forall|i: int| 0 <= i < dl.len() implies dl[i].0 != k by {
                assert(dl[i] == ps[i]);
            }
        }
        assert(assoc_map(dl) =~= assoc_map(dl).insert(k, ps.last().1).remove(k));
    } else {
        assert(dl[idx] == ps[idx]);
        assert(ps2.drop_last() =~= dl.remove(idx));
        assert(ps2.last() == ps.last()) by {
            assert(ps2[ps.len() - 2] == ps[ps.len() - 1]);
        }
        lemma_assoc_remove(dl, idx);
        let lk = ps.last().0;
        let lv = ps.last().1;
        assert(lk != k) by {
            assert(ps[ps.len() - 1].0 == lk);
        }
        assert(assoc_map(dl).remove(k).insert(lk, lv) =~= assoc_map(dl).insert(lk, lv).remove(k));
    }
}

/// Two sorted association sequences with the same map are the same
/// sequence.
pub proof fn lemma_assoc_sorted_same_map<V>(a: Seq<(Seq<char>, V)>, b: Seq<(Seq<char>, V)>)
    requires
        assoc_sorted(a),
        assoc_sorted(b),
        assoc_map(a) == assoc_map(b),
    ensures
        a == b,
    decreases a.len(),
{
    lemma_assoc_sorted_unique(a);
    lemma_assoc_sorted_unique(b);
    lemma_assoc_map_contains(a);
    lemma_assoc_map_contains(b);
    if a.len() == 0 && b.len() == 0 {
        assert(a =~= b);
    } else if a.len() == 0 {
        assert(b[b.len() - 1].0 == b.last().0);
        assert(assoc_map(b).contains_key(b.last().0));
        assert(false);
    } else if b.len() == 0 {
        assert(a[a.len() - 1].0 == a.last().0);
        assert(assoc_map(a).contains_key(a.last().0));
        assert(false);
    } else {
        let ka = a.last().0;
        let kb = b.last().0;
        assert(assoc_map(a).contains_key(ka)) by {
            assert(a[a.len() - 1].0 == ka);
        }
        assert(assoc_map(b).contains_key(kb)) by {
            assert(b[b.len() - 1].0 == kb);
        }
        let ia = choose|i: int| 0 <= i < a.len() && a[i].0 == kb;
        let ib = choose|i: int| 0 <= i < b.len() && b[i].0 == ka;
        assert(ka == kb) by {
            if ia < a.len() - 1 {
                assert(lex_lt(a[ia].0, a[a.len() - 1].0));
                if ib < b.len() - 1 {
                    assert(lex_lt(b[ib].0, b[b.len() - 1].0));
                    lemma_lex_transitive(ka, kb, ka);
                    lemma_lex_irrefl(ka);
                } else {
                    assert(b[b.len() - 1].0 == kb);
                    lemma_lex_irrefl(ka);
                }
            } else {
                assert(a[a.len() - 1].0 == ka);
            }
        }
        lemma_assoc_map_index(a, a.len() - 1);
        lemma_assoc_map_index(b, b.len() - 1);
        assert(a.last().1 == b.last().1);
        let a1 = a.drop_last();
        let b1 = b.drop_last();
        lemma_assoc_remove(a, a.len() - 1);
        lemma_assoc_remove(b, b.len() - 1);
        assert(a.remove(a.len() - 1) =~= a1);
        assert(b.remove(b.len() - 1) =~= b1);
        assert(assoc_map(a1) == assoc_map(b1)) by {
            assert(a[a.len() - 1].0 == ka);
            assert(b[b.len() - 1].0 == kb);
        }
        assert(assoc_sorted(a1)) by {
            assert(forall|i: int| 0 <= i < a1.len() ==> a1[i] == a[i]);
        }
        assert(assoc_sorted(b1)) by {
            assert(forall|i: int| 0 <= i < b1.len() ==> b1[i] == b[i]);
        }
        lemma_assoc_sorted_same_map(a1, b1);
        assert(a =~= b) by {
            assert(forall|i: int| 0 <= i < a1.len() ==> a1[i] == a[i] && b1[i] == b[i]);
            assert(a[a.len() - 1] == a.last() && b[b.len() - 1] == b.last());
        }
    }
}

} // verus!

verus! {

/// A single key/value property.
#[derive(Debug)]
pub struct IniProperty {
    key: String,
    value: String,
}

impl View for IniProperty {
    type V = (Seq<char>, Seq<char>);

    closed spec fn view(&self) -> (Seq<char>, Seq<char>) {
        (self.key@, self.value@)
    }
}

impl PartialEq for IniProperty {
    fn eq(&self, other: &IniProperty) -> (r: bool) {
        self.key == other.key && self.value == other.value
    }
}

impl vstd::std_specs::cmp::PartialEqSpecImpl for IniProperty {
    open spec fn obeys_eq_spec() -> bool {
        true
    }

    open spec fn eq_spec(&self, other: &IniProperty) -> bool {
        self@ == other@
    }
}

impl IniProperty {
    /// Builds the property `key:value`.
    pub fn new(key: String, value: String) -> (r: IniProperty)
        ensures
            r@ == (key@, value@),
    {
        IniProperty { key, value }
    }

    /// The property's key.
    pub fn key(&self) -> (r: &str)
        ensures
            r@ == self@.0,
    {
        self.key.as_str()
    }

    /// The property's value.
    pub fn value(&self) -> (r: &str)
        ensures
            r@ == self@.1,
    {
        self.value.as_str()
    }

    /// Mutable access to the key.
    pub fn key_mut(&mut self) -> (r: &mut String)
        ensures
            r@ == old(self)@.0,
            final(self)@ == (final(r)@, old(self)@.1),
    {
        &mut self.key
    }

    /// Mutable access to the value.
    pub fn value_mut(&mut self) -> (r: &mut String)
        ensures
            r@ == old(self)@.1,
            final(self)@ == (old(self)@.0, final(r)@),
    {
        &mut self.value
    }

    /// Replaces the key, returning the old one.
    pub fn set_key(&mut self, key: String) -> (r: String)
        ensures
            final(self)@ == (key@, old(self)@.1),
            r@ == old(self)@.0,
    {
        let mut key = key;
        core::mem::swap(&mut self.key, &mut key);
        key
    }

    /// Replaces the value, returning the old one.
    pub fn set_value(&mut self, value: String) -> (r: String)
        ensures
            final(self)@ == (old(self)@.0, value@),
            r@ == old(self)@.1,
    {
        let mut value = value;
        core::mem::swap(&mut self.value, &mut value);
        value
    }
}

/// A named group of properties, kept sorted by key.
#[derive(Debug)]
pub struct IniSection {
    name: String,
    properties: Vec<IniProperty>,
}

impl View for IniSection {
    type V = (Seq<char>, Seq<(Seq<char>, Seq<char>)>);

    closed spec fn view(&self) -> (Seq<char>, Seq<(Seq<char>, Seq<char>)>) {
        (self.name@, Seq::new(self.properties@.len(), |i: int| self.properties@[i]@))
    }
}

impl PartialEq for IniSection {
    fn eq(&self, other: &IniSection) -> (r: bool) {
        let names = self.name == other.name;
        let props = self.properties == other.properties;
        proof {
            if names && props {
                assert(self@.1 =~= other@.1);
            }
            if self@ == other@ {
                assert(self@.1 == other@.1);
                assert(self@.1.len() == self.properties@.len());
                assert(other@.1.len() == other.properties@.len());
                assert(self.properties@.len() == other.properties@.len());
                assert forall|i: int|
                    0 <= i < self.properties@.len() implies self.properties@[i].eq_spec(
                    &other.properties@[i],
                ) by {
                    assert(self@.1[i] == other@.1[i]);
                }
            }
        }
        names && props
    }
}

impl vstd::std_specs::cmp::PartialEqSpecImpl for IniSection {
    open spec fn obeys_eq_spec() -> bool {
        true
    }

    open spec fn eq_spec(&self, other: &IniSection) -> bool {
        self@ == other@
    }
}

impl IniSection {
    /// The section's properties in strictly increasing key order.
    pub open spec fn wf(self) -> bool {
        assoc_sorted(self@.1)
    }

    /// The key-to-value mapping the section holds.
    pub open spec fn spec_props(self) -> Map<Seq<char>, Seq<char>> {
        assoc_map(self@.1)
    }

    /// A fresh, empty section.
    pub fn new(name: String) -> (r: IniSection)
        ensures
            r@.0 == name@,
            r@.1 == Seq::<(Seq<char>, Seq<char>)>::empty(),
            r.wf(),
            r.spec_props() == Map::<Seq<char>, Seq<char>>::empty(),
    {
        let r = IniSection { name, properties: Vec::new() };
        proof {
            assert(r@.1 =~= Seq::<(Seq<char>, Seq<char>)>::empty());
        }
        r
    }

    /// The section's name.
    pub fn name(&self) -> (r: &str)
        ensures
            r@ == self@.0,
    {
        self.name.as_str()
    }

    /// How many properties the section holds.
    pub fn property_count(&self) -> (r: usize)
        ensures
            r == self@.1.len(),
    {
        self.properties.len()
    }

    /// The property at a position, in key order.
    pub fn property_at(&self, i: usize) -> (r: &IniProperty)
        requires
            i < self@.1.len(),
        ensures
            r@ == self@.1[i as int],
    {
        &self.properties[i]
    }

    /// Inserts a property; a property with the same key is replaced and
    /// handed back.
    pub fn insert_property(&mut self, property: IniProperty) -> (r: Option<IniProperty>)
        requires
            old(self).wf(),
        ensures
            final(self).wf(),
            final(self)@.0 == old(self)@.0,
            final(self).spec_props() == old(self).spec_props().insert(property@.0, property@.1),
            match r {
                Some(p) => old(self).spec_props().contains_key(property@.0) && p@.0 == property@.0
                    && p@.1 == old(self).spec_props()[property@.0],
                None => !old(self).spec_props().contains_key(property@.0),
            },
    {
        let ghost ps = self@.1;
        let ghost k = property@.0;
        proof {
            lemma_assoc_sorted_unique(ps);
            lemma_assoc_map_contains(ps);
        }
        let n = self.properties.len();
        let mut idx: usize = 0;
        while idx < n && str_compare(self.properties[idx].key(), property.key()) < 0
            invariant
                idx <= n,
                n == ps.len(),
                ps == self@.1,
                self == old(self),
                forall|j: int| 0 <= j < idx ==> lex_lt(ps[j].0, k),
                k == property@.0,
            decreases n - idx,
        {
            idx = idx + 1;
        }
        if idx < n && str_eq(self.properties[idx].key(), property.key()) {
            let mut p = property;
            self.properties.set_and_swap(idx, &mut p);
            proof {
                assert(self@.1 =~= ps.update(idx as int, (ps[idx as int].0, property@.1)));
                lemma_assoc_update(ps, idx as int, property@.1);
                lemma_assoc_map_index(ps, idx as int);
                assert forall|i: int, j: int| 0 <= i < j < self@.1.len() implies lex_lt(
                    self@.1[i].0,
                    self@.1[j].0,
                ) by {
                    assert(self@.1[i].0 == ps[i].0);
                    assert(self@.1[j].0 == ps[j].0);
                }
            }
            Some(p)
        } else {
            proof {
                if idx < n {
                    assert(!lex_lt(ps[idx as int].0, k));
                    assert(ps[idx as int].0 != k);
                    crate::text::lemma_lex_total(k, ps[idx as int].0);
                    assert(lex_lt(k, ps[idx as int].0));
                }
                assert forall|i: int| idx <= i < n implies lex_lt(k, ps[i].0) by {
                    if i > idx {
                        lemma_lex_transitive(k, ps[idx as int].0, ps[i].0);
                    }
                }
                assert forall|i: int| 0 <= i < n implies ps[i].0 != k by {
                    lemma_lex_irrefl(ps[i].0);
                }
                lemma_assoc_insert(ps, idx as int, k, property@.1);
            }
            self.properties.insert(idx, property);
            proof {
                assert(self@.1 =~= ps.insert(idx as int, (k, property@.1)));
                assert forall|i: int, j: int| 0 <= i < j < self@.1.len() implies lex_lt(
                    self@.1[i].0,
                    self@.1[j].0,
                ) by {
                    let ps2 = ps.insert(idx as int, (k, property@.1));
                    assert(ps2[i] == if i < idx {
                        ps[i]
                    } else if i == idx {
                        (k, property@.1)
                    } else {
                        ps[i - 1]
                    });
                    assert(ps2[j] == if j < idx {
                        ps[j]
                    } else if j == idx {
                        (k, property@.1)
                    } else {
                        ps[j - 1]
                    });
                }
            }
            None
        }
    }

    /// Removes the property with the given key, if present.
    pub fn remove_property(&mut self, key: &str) -> (r: Option<IniProperty>)
        requires
            old(self).wf(),
        ensures
            final(self).wf(),
            final(self)@.0 == old(self)@.0,
            final(self).spec_props() == old(self).spec_props().remove(key@),
            match r {
                Some(p) => old(self).spec_props().contains_key(key@) && p@.0 == key@ && p@.1 == old(
                    self,
                ).spec_props()[key@],
                None => !old(self).spec_props().contains_key(key@),
            },
    {
        let ghost ps = self@.1;
        proof {
            lemma_assoc_sorted_unique(ps);
            lemma_assoc_map_contains(ps);
        }
        let n = self.properties.len();
        let mut idx: usize = 0;
        while idx < n && !str_eq(self.properties[idx].key(), key)
            invariant
                idx <= n,
                n == ps.len(),
                ps == self@.1,
                self == old(self),
                forall|j: int| 0 <= j < idx ==> ps[j].0 != key@,
            decreases n - idx,
        {
            idx = idx + 1;
        }
        if idx < n {
            let p = self.properties.remove(idx);
            proof {
                assert(self@.1 =~= ps.remove(idx as int));
                lemma_assoc_remove(ps, idx as int);
                lemma_assoc_map_index(ps, idx as int);
                assert forall|i: int, j: int| 0 <= i < j < self@.1.len() implies lex_lt(
                    self@.1[i].0,
                    self@.1[j].0,
                ) by {
                    assert(self@.1[i] == if i < idx {
                        ps[i]
                    } else {
                        ps[i + 1]
                    });
                    assert(self@.1[j] == if j < idx {
                        ps[j]
                    } else {
                        ps[j + 1]
                    });
                }
            }
            Some(p)
        } else {
            proof {
                assert(!old(self).spec_props().contains_key(key@));
                assert(old(self).spec_props() =~= old(self).spec_props().remove(key@));
            }
            None
        }
    }

    /// Mutable access to the value stored under a key, if any.
    pub fn value_mut(&mut self, key: &str) -> (r: Option<&mut String>)
        requires
            old(self).wf(),
        ensures
            final(self).wf(),
            final(self)@.0 == old(self)@.0,
            match r {
                Some(v) => old(self).spec_props().contains_key(key@) && v@ == old(
                    self,
                ).spec_props()[key@] && final(self).spec_props() == old(self).spec_props().insert(
                    key@,
                    final(v)@,
                ),
                None => !old(self).spec_props().contains_key(key@) && *final(self) == *old(self),
            },
    {
        let ghost ps = self@.1;
        proof {
            lemma_assoc_sorted_unique(ps);
            lemma_assoc_map_contains(ps);
        }
        let n = self.properties.len();
        let mut idx: usize = 0;
        while idx < n && !str_eq(self.properties[idx].key(), key)
            invariant
                idx <= n,
                n == ps.len(),
                ps == self@.1,
                self == old(self),
                forall|j: int| 0 <= j < idx ==> ps[j].0 != key@,
            decreases n - idx,
        {
            idx = idx + 1;
        }
        if idx < n {
            proof {
                lemma_assoc_map_index(ps, idx as int);
            }
            let v = self.properties[idx].value_mut();
            proof {
                let fs = after_borrow(*self);
                assert(fs@.1 =~= ps.update(idx as int, (ps[idx as int].0, final(v)@)));
                lemma_assoc_update(ps, idx as int, final(v)@);
                assert forall|i: int, j: int| 0 <= i < j < fs@.1.len() implies lex_lt(
                    fs@.1[i].0,
                    fs@.1[j].0,
                ) by {
                    assert(fs@.1[i].0 == ps[i].0);
                    assert(fs@.1[j].0 == ps[j].0);
                }
            }
            Some(v)
        } else {
            None
        }
    }

    /// Whether a property with this key exists.
    pub fn contains_key(&self, key: &str) -> (r: bool)
        requires
            self.wf(),
        ensures
            r == self.spec_props().contains_key(key@),
    {
        self.value(key).is_some()
    }

    /// The value stored under a key, if any.
    pub fn value(&self, key: &str) -> (r: Option<&String>)
        requires
            self.wf(),
        ensures
            match r {
                Some(v) => self.spec_props().contains_key(key@) && v@ == self.spec_props()[key@],
                None => !self.spec_props().contains_key(key@),
            },
    {
        let ghost ps = self@.1;
        proof {
            lemma_assoc_sorted_unique(ps);
            lemma_assoc_map_contains(ps);
        }
        let n = self.properties.len();
        let mut idx: usize = 0;
        while idx < n && !str_eq(self.properties[idx].key(), key)
            invariant
                idx <= n,
                n == ps.len(),
                ps == self@.1,
                forall|j: int| 0 <= j < idx ==> ps[j].0 != key@,
            decreases n - idx,
        {
            idx = idx + 1;
        }
        if idx < n {
            proof {
                lemma_assoc_map_index(ps, idx as int);
            }
            Some(&self.properties[idx].value)
        } else {
            None
        }
    }
}

} // verus!

verus! {

/// A whole document: sections kept sorted by name.
#[derive(Debug)]
pub struct Ini {
    pub sections: Vec<IniSection>,
}

impl View for Ini {
    type V = Seq<(Seq<char>, Seq<(Seq<char>, Seq<char>)>)>;

    open spec fn view(&self) -> Seq<(Seq<char>, Seq<(Seq<char>, Seq<char>)>)> {
        Seq::new(self.sections@.len(), |i: int| self.sections@[i]@)
    }
}

impl PartialEq for Ini {
    fn eq(&self, other: &Ini) -> (r: bool) {
        let r = self.sections == other.sections;
        proof {
            if r {
                assert(self@ =~= other@);
            }
            if self@ == other@ {
                assert(self@.len() == self.sections@.len());
                assert(other@.len() == other.sections@.len());
                assert forall|i: int|
                    0 <= i < self.sections@.len() implies self.sections@[i].eq_spec(
                    &other.sections@[i],
                ) by {
                    assert(self@[i] == other@[i]);
                }
            }
        }
        r
    }
}

impl vstd::std_specs::cmp::PartialEqSpecImpl for Ini {
    open spec fn obeys_eq_spec() -> bool {
        true
    }

    open spec fn eq_spec(&self, other: &Ini) -> bool {
        self@ == other@
    }
}

impl Ini {
    /// Names strictly sorted, and every section well-formed.
    pub open spec fn wf(self) -> bool {
        assoc_sorted(self@) && forall|i: int| 0 <= i < self@.len() ==> assoc_sorted(#[trigger] self@[i].1)
    }

    /// The document as entries from section name to property mapping.
    pub open spec fn entries(self) -> Seq<(Seq<char>, Map<Seq<char>, Seq<char>>)> {
        self@.map_values(
            |s: (Seq<char>, Seq<(Seq<char>, Seq<char>)>)| (s.0, assoc_map(s.1)),
        )
    }

    /// The mapping from section name to that section's properties.
    pub open spec fn spec_map(self) -> Map<Seq<char>, Map<Seq<char>, Seq<char>>> {
        assoc_map(self.entries())
    }

    /// A fresh, empty document.
    pub fn new() -> (r: Ini)
        ensures
            r@ == Seq::<(Seq<char>, Seq<(Seq<char>, Seq<char>)>)>::empty(),
            r.wf(),
            r.spec_map() == Map::<Seq<char>, Map<Seq<char>, Seq<char>>>::empty(),
    {
        let r = Ini { sections: Vec::new() };
        proof {
            assert(r@ =~= Seq::<(Seq<char>, Seq<(Seq<char>, Seq<char>)>)>::empty());
            assert(r.entries() =~= Seq::<(Seq<char>, Map<Seq<char>, Seq<char>>)>::empty());
        }
        r
    }

    /// Inserts a section; a section with the same name is replaced and
    /// handed back.
    pub fn insert_section(&mut self, section: IniSection) -> (r: Option<IniSection>)
        requires
            old(self).wf(),
            section.wf(),
        ensures
            final(self).wf(),
            final(self).spec_map() == old(self).spec_map().insert(
                section@.0,
                section.spec_props(),
            ),
            match r {
                Some(s) => old(self).spec_map().contains_key(section@.0) && s@.0 == section@.0
                    && assoc_map(s@.1) == old(self).spec_map()[section@.0],
                None => !old(self).spec_map().contains_key(section@.0),
            },
    {
        let ghost ss = self@;
        let ghost es = self.entries();
        let ghost k = section@.0;
        proof {
            assert(assoc_keys_unique(es)) by {
                lemma_assoc_sorted_unique(ss);
            }
            lemma_assoc_map_contains(es);
        }
        let n = self.sections.len();
        let mut idx: usize = 0;
        while idx < n && str_compare(self.sections[idx].name(), section.name()) < 0
            invariant
                idx <= n,
                n == ss.len(),
                ss == self@,
                self == old(self),
                forall|j: int| 0 <= j < idx ==> lex_lt(ss[j].0, k),
                k == section@.0,
            decreases n - idx,
        {
            idx = idx + 1;
        }
        if idx < n && str_eq(self.sections[idx].name(), section.name()) {
            let mut s = section;
            self.sections.set_and_swap(idx, &mut s);
            proof {
                assert(self@ =~= ss.update(idx as int, section@));
                assert(self.entries() =~= es.update(idx as int, (es[idx as int].0, assoc_map(section@.1))));
                lemma_assoc_update(es, idx as int, assoc_map(section@.1));
                lemma_assoc_map_index(es, idx as int);
                assert forall|i: int, j: int| 0 <= i < j < self@.len() implies lex_lt(
                    self@[i].0,
                    self@[j].0,
                ) by {
                    assert(self@[i].0 == ss[i].0);
                    assert(self@[j].0 == ss[j].0);
                }
                assert forall|i: int| 0 <= i < self@.len() implies assoc_sorted(
                    #[trigger] self@[i].1,
                ) by {
                    if i != idx {
                        assert(self@[i] == ss[i]);
                    }
                }
            }
            Some(s)
        } else {
            proof {
                if idx < n {
                    assert(!lex_lt(ss[idx as int].0, k));
                    assert(ss[idx as int].0 != k);
                    crate::text::lemma_lex_total(k, ss[idx as int].0);
                    assert(lex_lt(k, ss[idx as int].0));
                }
                assert forall|i: int| idx <= i < n implies lex_lt(k, ss[i].0) by {
                    if i > idx {
                        lemma_lex_transitive(k, ss[idx as int].0, ss[i].0);
                    }
                }
                assert forall|i: int| 0 <= i < n implies es[i].0 != k by {
                    lemma_lex_irrefl(ss[i].0);
                }
                lemma_assoc_insert(es, idx as int, k, assoc_map(section@.1));
            }
            self.sections.insert(idx, section);
            proof {
                assert(self@ =~= ss.insert(idx as int, section@));
                assert(self.entries() =~= es.insert(idx as int, (k, assoc_map(section@.1))));
                let ss2 = ss.insert(idx as int, section@);
                assert forall|i: int, j: int| 0 <= i < j < ss2.len() implies lex_lt(
                    ss2[i].0,
                    ss2[j].0,
                ) by {
                    assert(ss2[i] == if i < idx {
                        ss[i]
                    } else if i == idx {
                        section@
                    } else {
                        ss[i - 1]
                    });
                    assert(ss2[j] == if j < idx {
                        ss[j]
                    } else if j == idx {
                        section@
                    } else {
                        ss[j - 1]
                    });
                }
                assert forall|i: int| 0 <= i < ss2.len() implies assoc_sorted(
                    #[trigger] ss2[i].1,
                ) by {
                    assert(ss2[i] == if i < idx {
                        ss[i]
                    } else if i == idx {
                        section@
                    } else {
                        ss[i - 1]
                    });
                }
            }
            None
        }
    }

    /// Removes the section with the given name, if present.
    pub fn remove_section(&mut self, name: &str) -> (r: Option<IniSection>)
        requires
            old(self).wf(),
        ensures
            final(self).wf(),
            final(self).spec_map() == old(self).spec_map().remove(name@),
            match r {
                Some(s) => old(self).spec_map().contains_key(name@) && s@.0 == name@ && assoc_map(
                    s@.1,
                ) == old(self).spec_map()[name@],
                None => !old(self).spec_map().contains_key(name@),
            },
    {
        let ghost ss = self@;
        let ghost es = self.entries();
        proof {
            assert(assoc_keys_unique(es)) by {
                lemma_assoc_sorted_unique(ss);
            }
            lemma_assoc_map_contains(es);
        }
        let n = self.sections.len();
        let mut idx: usize = 0;
        while idx < n && !str_eq(self.sections[idx].name(), name)
            invariant
                idx <= n,
                n == ss.len(),
                ss == self@,
                self == old(self),
                forall|j: int| 0 <= j < idx ==> ss[j].0 != name@,
            decreases n - idx,
        {
            idx = idx + 1;
        }
        if idx < n {
            let s = self.sections.remove(idx);
            proof {
                assert(self@ =~= ss.remove(idx as int));
                assert(self.entries() =~= es.remove(idx as int));
                lemma_assoc_remove(es, idx as int);
                lemma_assoc_map_index(es, idx as int);
                assert forall|i: int, j: int| 0 <= i < j < self@.len() implies lex_lt(
                    self@[i].0,
                    self@[j].0,
                ) by {
                    assert(self@[i] == if i < idx {
                        ss[i]
                    } else {
                        ss[i + 1]
                    });
                    assert(self@[j] == if j < idx {
                        ss[j]
                    } else {
                        ss[j + 1]
                    });
                }
                assert forall|i: int| 0 <= i < self@.len() implies assoc_sorted(
                    #[trigger] self@[i].1,
                ) by {
                    assert(self@[i] == if i < idx {
                        ss[i]
                    } else {
                        ss[i + 1]
                    });
                }
            }
            Some(s)
        } else {
            proof {
                assert forall|i: int| 0 <= i < es.len() implies es[i].0 != name@ by {
                    assert(es[i].0 == ss[i].0);
                }
                assert(!old(self).spec_map().contains_key(name@));
                assert(old(self).spec_map() =~= old(self).spec_map().remove(name@));
            }
            None
        }
    }

    /// How many sections the document holds.
    pub fn section_count(&self) -> (r: usize)
        ensures
            r == self@.len(),
    {
        self.sections.len()
    }

    /// The section at a position, in name order.
    pub fn section_at(&self, i: usize) -> (r: &IniSection)
        requires
            i < self@.len(),
        ensures
            r@ == self@[i as int],
    {
        &self.sections[i]
    }
}

impl Default for Ini {
    /// An empty document.
    fn default() -> (r: Ini)
        ensures
            r@ == Seq::<(Seq<char>, Seq<(Seq<char>, Seq<char>)>)>::empty(),
            r.wf(),
            r.spec_map() == Map::<Seq<char>, Map<Seq<char>, Seq<char>>>::empty(),
    {
        Ini::new()
    }
}

} // verus!

verus! {

/// The line a property renders to: `key:value`.
pub open spec fn spec_prop_text(p: (Seq<char>, Seq<char>)) -> Seq<char> {
    p.0 + ":"@ + p.1
}

/// Property lines joined by single newlines.
pub open spec fn spec_props_text(ps: Seq<(Seq<char>, Seq<char>)>) -> Seq<char>
    decreases ps.len(),
{
    if ps.len() == 0 {
        Seq::empty()
    } else if ps.len() == 1 {
        spec_prop_text(ps[0])
    } else {
        spec_props_text(ps.drop_last()) + "\n"@ + spec_prop_text(ps.last())
    }
}

/// The text a section renders to: a `[name]` header line, then its
/// property lines.
pub open spec fn spec_section_text(s: (Seq<char>, Seq<(Seq<char>, Seq<char>)>)) -> Seq<char> {
    "["@ + s.0 + "]\n"@ + spec_props_text(s.1)
}

/// Section texts joined by single newlines.
pub open spec fn spec_ini_text(ss: Seq<(Seq<char>, Seq<(Seq<char>, Seq<char>)>)>) -> Seq<char>
    decreases ss.len(),
{
    if ss.len() == 0 {
        Seq::empty()
    } else if ss.len() == 1 {
        spec_section_text(ss[0])
    } else {
        spec_ini_text(ss.drop_last()) + "\n"@ + spec_section_text(ss.last())
    }
}

impl IniProperty {
    /// Renders the property as `key:value`.
    pub fn to_ini_string(&self) -> (r: String)
        ensures
            r@ == spec_prop_text(self@),
    {
        let mut s = String::from_str(self.key.as_str());
        s.append(":");
        s.append(self.value.as_str());
        s
    }
}

impl IniSection {
    /// Renders the section: its header line, then one line per property
    /// in key order.
    pub fn to_ini_string(&self) -> (r: String)
        ensures
            r@ == spec_section_text(self@),
    {
        let ghost ps = self@.1;
        let mut s = String::from_str("[");
        s.append(self.name.as_str());
        s.append("]\n");
        proof {
            assert(ps.subrange(0, 0) =~= Seq::<(Seq<char>, Seq<char>)>::empty());
        }
        let n = self.properties.len();
        let mut i: usize = 0;
        while i < n
            invariant
                i <= n,
                n == ps.len(),
                ps == self@.1,
                s@ == "["@ + self@.0 + "]\n"@ + spec_props_text(ps.subrange(0, i as int)),
            decreases n - i,
        {
            if i > 0 {
                s.append("\n");
            }
            s.append(self.properties[i].key.as_str());
            s.append(":");
            s.append(self.properties[i].value.as_str());
            proof {
                let pre = ps.subrange(0, i as int);
                let post = ps.subrange(0, i + 1);
                assert(post.drop_last() =~= pre);
                assert(post.last() == ps[i as int]);
                if i == 0 {
                    assert(post[0] == ps[0]);
                    assert(s@ =~= "["@ + self@.0 + "]\n"@ + spec_props_text(post));
                } else {
                    assert(s@ =~= "["@ + self@.0 + "]\n"@ + spec_props_text(post));
                }
            }
            i = i + 1;
        }
        proof {
            assert(ps.subrange(0, n as int) =~= ps);
        }
        s
    }
}

impl Ini {
    /// Renders the document: section texts in name order, joined by
    /// single newlines.
    pub fn to_ini_string(&self) -> (r: String)
        ensures
            r@ == spec_ini_text(self@),
    {
        let ghost ss = self@;
        let mut s = String::new();
        proof {
            assert(ss.subrange(0, 0) =~= Seq::<(Seq<char>, Seq<(Seq<char>, Seq<char>)>)>::empty());
        }
        let n = self.sections.len();
        let mut i: usize = 0;
        while i < n
            invariant
                i <= n,
                n == ss.len(),
                ss == self@,
                s@ == spec_ini_text(ss.subrange(0, i as int)),
            decreases n - i,
        {
            if i > 0 {
                s.append("\n");
            }
            let t = self.sections[i].to_ini_string();
            s.append(t.as_str());
            proof {
                let pre = ss.subrange(0, i as int);
                let post = ss.subrange(0, i + 1);
                assert(post.drop_last() =~= pre);
                assert(post.last() == ss[i as int]);
                if i == 0 {
                    assert(post[0] == ss[0]);
                    assert(s@ =~= spec_ini_text(post));
                } else {
                    assert(s@ =~= spec_ini_text(post));
                }
            }
            i = i + 1;
        }
        proof {
            assert(ss.subrange(0, n as int) =~= ss);
        }
        s
    }
}

} // verus!
