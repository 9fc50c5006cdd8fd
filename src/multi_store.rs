use vstd::prelude::*;

use crate::fact::{Fact, FactModel, Triple};
use crate::value::FactValue;

verus! {

/// `s` with every occurrence of `t` taken out, the rest in order.
pub open spec fn without(s: Seq<Triple>, t: Triple) -> Seq<Triple>
    decreases s.len(),
{
    if s.len() == 0 {
        s
    } else {
        let rest = without(s.drop_last(), t);
        if s.last() == t {
            rest
        } else {
            rest.push(s.last())
        }
    }
}

/// The effect of one fact on the many-valued state: an assertion appends its
/// triple, duplicates included; a retraction removes every equal triple.
pub open spec fn apply_many(s: Seq<Triple>, f: FactModel) -> Seq<Triple> {
    if f.operation {
        s.push(f.triple())
    } else {
        without(s, f.triple())
    }
}

/// The triples of owned entries.
pub open spec fn entry_triples(entries: Seq<(String, String, FactValue)>) -> Seq<Triple> {
    entries.map_values(|e: (String, String, FactValue)| (e.0@, e.1@, e.2@))
}

/// The triples of a sequence of facts, operations left aside.
pub open spec fn triples_of(facts: Seq<FactModel>) -> Seq<Triple> {
    facts.map_values(|f: FactModel| f.triple())
}

/// Whether every fact of `facts` is an assertion.
pub open spec fn all_asserted(facts: Seq<FactModel>) -> bool {
    forall|i: int| 0 <= i < facts.len() ==> #[trigger] facts[i].operation
}

/// Live values of many-valued attributes: for each entity and attribute, the
/// asserted values in order of assertion, duplicates kept.
pub struct MultiValueStore {
    entries: Vec<(String, String, FactValue)>,
}

impl View for MultiValueStore {
    type V = Seq<Triple>;

    closed spec fn view(&self) -> Seq<Triple> {
        entry_triples(self.entries@)
    }
}

/// An owned copy of an entry.
fn copy_entry(e: &(String, String, FactValue)) -> (r: (String, String, FactValue))
    ensures
        (r.0@, r.1@, r.2@) == (e.0@, e.1@, e.2@),
{
    (e.0.clone(), e.1.clone(), e.2.duplicate())
}

impl MultiValueStore {
    pub fn new() -> (r: MultiValueStore)
        ensures
            r@ == Seq::<Triple>::empty(),
    {
        MultiValueStore { entries: Vec::new() }
    }

    /// Takes out every entry equal to `(entity, attribute, value)`.
    fn remove_all(&mut self, entity: &String, attribute: &String, value: &FactValue)
        ensures
            final(self)@ == without(old(self)@, (entity@, attribute@, value@)),
    {
        let ghost t = (entity@, attribute@, value@);
        let mut kept: Vec<(String, String, FactValue)> = Vec::new();
        let mut i: usize = 0;
        while i < self.entries.len()
            invariant
                i <= self.entries.len(),
                t == (entity@, attribute@, value@),
                entry_triples(kept@) == without(entry_triples(self.entries@).subrange(0, i as int), t),
            decreases self.entries.len() - i,
        {
            let e = &self.entries[i];
            let ghost s = entry_triples(self.entries@);
            assert(s.subrange(0, i + 1).drop_last() =~= s.subrange(0, i as int));
            assert(s.subrange(0, i + 1).last() == (e.0@, e.1@, e.2@));
            let same = e.0.eq(entity) && e.1.eq(attribute) && e.2.same_as(value);
            if !same {
                let ghost before = kept@;
                kept.push(copy_entry(e));
                assert(entry_triples(kept@) =~= entry_triples(before).push((e.0@, e.1@, e.2@)));
            }
            i = i + 1;
        }
        assert(entry_triples(self.entries@).subrange(0, i as int) =~= entry_triples(self.entries@));
        self.entries = kept;
    }
}

/// Applies one fact of a many-valued attribute: an assertion appends its
/// value, a retraction removes every occurrence of it.
pub fn handle_many_attribute(fact: &Fact, store: &mut MultiValueStore)
    ensures
        final(store)@ == apply_many(old(store)@, fact@),
{
    if fact.operation() {
        let ghost before = store.entries@;
        store.entries.push(
            (fact.entity().clone(), fact.attribute().clone(), fact.value().duplicate()),
        );
        assert(entry_triples(store.entries@) =~= entry_triples(before).push(fact@.triple()));
    } else {
        store.remove_all(fact.entity(), fact.attribute(), fact.value());
    }
}

/// Appends to `active_facts` one asserted fact per live entry of `store`, in
/// the store's order.
pub fn get_attributes_many(store: &MultiValueStore, active_facts: Vec<Fact>) -> (r: Vec<Fact>)
    ensures
        r.deep_view() == active_facts.deep_view() + Seq::new(
            store@.len(),
            |i: int|
                FactModel {
                    entity: store@[i].0,
                    attribute: store@[i].1,
                    value: store@[i].2,
                    operation: true,
                },
        ),
{
    let mut out = active_facts;
    let mut i: usize = 0;
    while i < store.entries.len()
        invariant
            i <= store.entries.len(),
            out.deep_view() == active_facts.deep_view() + Seq::new(
                i as nat,
                |j: int|
                    FactModel {
                        entity: store@[j].0,
                        attribute: store@[j].1,
                        value: store@[j].2,
                        operation: true,
                    },
            ),
        decreases store.entries.len() - i,
    {
        let e = &store.entries[i];
        let ghost before = out.deep_view();
        out.push(Fact::new(e.0.clone(), e.1.clone(), e.2.duplicate(), true));
        assert(out.deep_view() =~= before.push(out@[i + active_facts.len()]@));
        assert(out.deep_view() =~= active_facts.deep_view() + Seq::new(
            (i + 1) as nat,
            |j: int|
                FactModel {
                    entity: store@[j].0,
                    attribute: store@[j].1,
                    value: store@[j].2,
                    operation: true,
                },
        ));
        i = i + 1;
    }
    out
}

} // verus!
