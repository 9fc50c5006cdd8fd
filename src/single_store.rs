use vstd::prelude::*;

use crate::fact::{Fact, FactModel, Key, Triple};
use crate::multi_store::{entry_triples, triples_of, all_asserted};
use crate::value::{FactValue, ValueModel};

verus! {

/// The entity and attribute of a triple.
pub open spec fn key_of(t: Triple) -> Key {
    (t.0, t.1)
}

/// `s` lists the map `m`: one triple per key of `m`, carrying the key's
/// value, and no key twice.
pub open spec fn lists_map(s: Seq<Triple>, m: Map<Key, ValueModel>) -> bool {
    &&& forall|i: int, j: int|
        0 <= i < s.len() && 0 <= j < s.len() && i != j ==> key_of(#[trigger] s[i]) != key_of(
            #[trigger] s[j],
        )
    &&& forall|i: int|
        0 <= i < s.len() ==> m.contains_key(key_of(#[trigger] s[i])) && m[key_of(s[i])] == s[i].2
    &&& forall|k: Key| #[trigger]
        m.contains_key(k) ==> exists|i: int| 0 <= i < s.len() && key_of(s[i]) == k
}

proof fn lemma_lists_map_update(s: Seq<Triple>, m: Map<Key, ValueModel>, i: int, t: Triple)
    requires
        lists_map(s, m),
        0 <= i < s.len(),
        key_of(t) == key_of(s[i]),
    ensures
        lists_map(s.update(i, t), m.insert(key_of(t), t.2)),
{
    let s2 = s.update(i, t);
    let m2 = m.insert(key_of(t), t.2);
    assert forall|j: int| 0 <= j < s2.len() implies m2.contains_key(key_of(#[trigger] s2[j]))
        && m2[key_of(s2[j])] == s2[j].2 by {
        if j != i {
            assert(key_of(s[j]) != key_of(s[i]));
        }
    }
    assert forall|k: Key| #[trigger] m2.contains_key(k) implies exists|j: int|
        0 <= j < s2.len() && key_of(s2[j]) == k by {
        if k == key_of(t) {
            assert(key_of(s2[i]) == k);
        } else {
            let j = choose|j: int| 0 <= j < s.len() && key_of(s[j]) == k;
            assert(key_of(s2[j]) == k);
        }
    }
}

proof fn lemma_lists_map_push(s: Seq<Triple>, m: Map<Key, ValueModel>, t: Triple)
    requires
        lists_map(s, m),
        !m.contains_key(key_of(t)),
    ensures
        lists_map(s.push(t), m.insert(key_of(t), t.2)),
{
    let s2 = s.push(t);
    let m2 = m.insert(key_of(t), t.2);
    assert forall|j: int| 0 <= j < s.len() implies key_of(#[trigger] s2[j]) != key_of(t) by {
        assert(m.contains_key(key_of(s[j])));
    }
    assert forall|k: Key| #[trigger] m2.contains_key(k) implies exists|j: int|
        0 <= j < s2.len() && key_of(s2[j]) == k by {
        if k == key_of(t) {
            assert(key_of(s2[s.len() as int]) == k);
        } else {
            let j = choose|j: int| 0 <= j < s.len() && key_of(s[j]) == k;
            assert(key_of(s2[j]) == k);
        }
    }
}

proof fn lemma_lists_map_remove(s: Seq<Triple>, m: Map<Key, ValueModel>, i: int)
    requires
        lists_map(s, m),
        0 <= i < s.len(),
    ensures
        lists_map(s.remove(i), m.remove(key_of(s[i]))),
{
    let s2 = s.remove(i);
    let m2 = m.remove(key_of(s[i]));
    assert forall|j: int| 0 <= j < s2.len() implies m2.contains_key(key_of(#[trigger] s2[j]))
        && m2[key_of(s2[j])] == s2[j].2 by {
        if j < i {
            assert(key_of(s[j]) != key_of(s[i]));
        } else {
            assert(key_of(s[j + 1]) != key_of(s[i]));
        }
    }
    assert forall|a: int, b: int|
        0 <= a < s2.len() && 0 <= b < s2.len() && a != b implies key_of(#[trigger] s2[a])
        != key_of(#[trigger] s2[b]) by {
        let a0 = if a < i { a } else { a + 1 };
        let b0 = if b < i { b } else { b + 1 };
        assert(s2[a] == s[a0] && s2[b] == s[b0]);
    }
    assert forall|k: Key| #[trigger] m2.contains_key(k) implies exists|j: int|
        0 <= j < s2.len() && key_of(s2[j]) == k by {
        let j0 = choose|j: int| 0 <= j < s.len() && key_of(s[j]) == k;
        if j0 < i {
            assert(key_of(s2[j0]) == k);
        } else {
            assert(key_of(s2[j0 - 1]) == k);
        }
    }
}

/// The effect of one fact on the single-valued state: an assertion sets the
/// value of its entity and attribute, whatever was there; a retraction
/// clears it only where the current value equals the retracted one.
pub open spec fn apply_one(m: Map<Key, ValueModel>, f: FactModel) -> Map<Key, ValueModel> {
    if f.operation {
        m.insert(f.key(), f.value)
    } else if m.contains_key(f.key()) && m[f.key()] == f.value {
        m.remove(f.key())
    } else {
        m
    }
}

/// Live values of single-valued attributes: at most one value for each
/// entity and attribute.
pub struct SingleValueStore {
    entries: Vec<(String, String, FactValue)>,
    model: Ghost<Map<Key, ValueModel>>,
}

impl View for SingleValueStore {
    type V = Map<Key, ValueModel>;

    closed spec fn view(&self) -> Map<Key, ValueModel> {
        self.model@
    }
}

impl SingleValueStore {
    /// The entries list the store's map, each key once.
    pub closed spec fn wf(&self) -> bool {
        lists_map(entry_triples(self.entries@), self.model@)
    }

    pub fn new() -> (r: SingleValueStore)
        ensures
            r.wf(),
            r@ == Map::<Key, ValueModel>::empty(),
    {
        SingleValueStore { entries: Vec::new(), model: Ghost(Map::empty()) }
    }

    /// The position of the entry for `(entity, attribute)`, if any.
    fn find(&self, entity: &String, attribute: &String) -> (r: Option<usize>)
        requires
            self.wf(),
        ensures
            match r {
                Some(i) => i < self.entries.len() && key_of(entry_triples(self.entries@)[i as int])
                    == (entity@, attribute@),
                None => !self@.contains_key((entity@, attribute@)),
            },
    {
        let mut i: usize = 0;
        while i < self.entries.len()
            invariant
                i <= self.entries.len(),
                forall|j: int|
                    0 <= j < i ==> key_of(#[trigger] entry_triples(self.entries@)[j]) != (
                        entity@,
                        attribute@,
                    ),
            decreases self.entries.len() - i,
        {
            let e = &self.entries[i];
            if e.0.eq(entity) && e.1.eq(attribute) {
                return Some(i);
            }
            i = i + 1;
        }
        None
    }
}

/// Applies one fact of a single-valued attribute: an assertion overwrites the
/// value, a retraction clears it only if it names the current value.
pub fn handle_one_attribute(fact: &Fact, store: &mut SingleValueStore)
    requires
        old(store).wf(),
    ensures
        final(store).wf(),
        final(store)@ == apply_one(old(store)@, fact@),
{
    let ghost k = fact@.key();
    let ghost s0 = entry_triples(store.entries@);
    let found = store.find(fact.entity(), fact.attribute());
    if fact.operation() {
        let entry = (fact.entity().clone(), fact.attribute().clone(), fact.value().duplicate());
        match found {
            Some(i) => {
                store.entries.set(i, entry);
            },
            None => {
                store.entries.push(entry);
            },
        }
        store.model = Ghost(store.model@.insert(k, fact@.value));
        proof {
            let s = entry_triples(store.entries@);
            match found {
                Some(i) => {
                    assert(s =~= s0.update(i as int, fact@.triple()));
                    lemma_lists_map_update(s0, old(store).model@, i as int, fact@.triple());
                },
                None => {
                    assert(s =~= s0.push(fact@.triple()));
                    lemma_lists_map_push(s0, old(store).model@, fact@.triple());
                },
            }
        }
    } else {
        match found {
            Some(i) => {
                if store.entries[i].2.same_as(fact.value()) {
                    store.entries.remove(i);
                    store.model = Ghost(store.model@.remove(k));
                    proof {
                        let s = entry_triples(store.entries@);
                        assert(s =~= s0.remove(i as int));
                        lemma_lists_map_remove(s0, old(store).model@, i as int);
                    }
                }
            },
            None => {},
        }
    }
}

/// Appends to `active_facts` one asserted fact for each entity and attribute
/// that holds a value in `store`.
pub fn get_attributes_one(store: &SingleValueStore, active_facts: Vec<Fact>) -> (r: Vec<Fact>)
    requires
        store.wf(),
    ensures
        r.len() >= active_facts.len(),
        r.deep_view().subrange(0, active_facts.len() as int) == active_facts.deep_view(),
        lists_map(
            triples_of(r.deep_view().subrange(active_facts.len() as int, r.len() as int)),
            store@,
        ),
        all_asserted(r.deep_view().subrange(active_facts.len() as int, r.len() as int)),
{
    let mut out = active_facts;
    let ghost s = entry_triples(store.entries@);
    let mut i: usize = 0;
    while i < store.entries.len()
        invariant
            i <= store.entries.len(),
            s == entry_triples(store.entries@),
            out.len() == active_facts.len() + i,
            out.deep_view().subrange(0, active_facts.len() as int) == active_facts.deep_view(),
            forall|j: int|
                0 <= j < i ==> (#[trigger] out.deep_view()[active_facts.len() + j]).triple() == s[j]
                    && out.deep_view()[active_facts.len() + j].operation,
        decreases store.entries.len() - i,
    {
        let e = &store.entries[i];
        let ghost before = out.deep_view();
        out.push(Fact::new(e.0.clone(), e.1.clone(), e.2.duplicate(), true));
        assert(out.deep_view() =~= before.push(out@[active_facts.len() + i]@));
        assert(out.deep_view().subrange(0, active_facts.len() as int) =~= before.subrange(
            0,
            active_facts.len() as int,
        ));
        i = i + 1;
    }
    let ghost tail = out.deep_view().subrange(active_facts.len() as int, out.len() as int);
    assert forall|j: int| 0 <= j < tail.len() implies (#[trigger] tail[j]).triple() == s[j]
        && tail[j].operation by {
        assert(tail[j] == out.deep_view()[active_facts.len() + j]);
    }
    assert(triples_of(tail) =~= s);
    out
}

} // verus!
