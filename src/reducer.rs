use vstd::prelude::*;

use crate::cardinality::{attribute_is_many, effective_cardinality, Cardinality, CardinalityIndex};
use crate::fact::{Fact, FactModel, Key, SchemaFact, SchemaModel, Triple};
use crate::multi_store::{
    all_asserted,
    apply_many,
    get_attributes_many,
    handle_many_attribute,
    triples_of,
    MultiValueStore,
};
use crate::single_store::{
    apply_one,
    get_attributes_one,
    handle_one_attribute,
    lists_map,
    SingleValueStore,
};
use crate::value::ValueModel;

verus! {

/// Whether `f` is reduced as a fact of a many-valued attribute.
pub open spec fn routes_many(schema: Seq<SchemaModel>, f: FactModel) -> bool {
    effective_cardinality(schema, f.attribute) == Cardinality::Many
}

/// The single-valued state after applying `log` in order.
pub open spec fn single_state(log: Seq<FactModel>, schema: Seq<SchemaModel>) -> Map<Key, ValueModel>
    decreases log.len(),
{
    if log.len() == 0 {
        Map::empty()
    } else {
        let prev = single_state(log.drop_last(), schema);
        if routes_many(schema, log.last()) {
            prev
        } else {
            apply_one(prev, log.last())
        }
    }
}

/// The many-valued state after applying `log` in order.
pub open spec fn multi_state(log: Seq<FactModel>, schema: Seq<SchemaModel>) -> Seq<Triple>
    decreases log.len(),
{
    if log.len() == 0 {
        Seq::empty()
    } else {
        let prev = multi_state(log.drop_last(), schema);
        if routes_many(schema, log.last()) {
            apply_many(prev, log.last())
        } else {
            prev
        }
    }
}

/// `out` flattens the two states: first one asserted fact per key of the
/// single-valued map `m`, in some order, then one asserted fact per entry of
/// the many-valued list `ms`, in its order.
pub open spec fn flattens(out: Seq<FactModel>, m: Map<Key, ValueModel>, ms: Seq<Triple>) -> bool {
    &&& out.len() >= ms.len()
    &&& lists_map(triples_of(out.subrange(0, out.len() - ms.len())), m)
    &&& triples_of(out.subrange(out.len() - ms.len(), out.len() as int)) == ms
    &&& all_asserted(out)
}

/// The facts that are active after the whole of `facts`, each an assertion:
/// the live single-valued entries, then the live many-valued entries in order
/// of assertion. Attributes that `schema` does not declare are single-valued.
pub fn get_active_facts(facts: &Vec<Fact>, schema: &Vec<SchemaFact>) -> (r: Vec<Fact>)
    ensures
        flattens(
            r.deep_view(),
            single_state(facts.deep_view(), schema.deep_view()),
            multi_state(facts.deep_view(), schema.deep_view()),
        ),
{
    let index = CardinalityIndex::build(schema);
    let mut attributes_one = SingleValueStore::new();
    let mut attributes_many = MultiValueStore::new();
    let ghost log = facts.deep_view();
    let ghost sch = schema.deep_view();
    let mut fact_index: usize = 0;
    while fact_index < facts.len()
        invariant
            fact_index <= facts.len(),
            log == facts.deep_view(),
            sch == schema.deep_view(),
            forall|a: Seq<char>| #[trigger]
                index.spec_lookup(a) == crate::cardinality::declared_cardinality(sch, a),
            attributes_one.wf(),
            attributes_one@ == single_state(log.subrange(0, fact_index as int), sch),
            attributes_many@ == multi_state(log.subrange(0, fact_index as int), sch),
        decreases facts.len() - fact_index,
    {
        let fact = &facts[fact_index];
        assert(log.subrange(0, fact_index + 1).drop_last() =~= log.subrange(0, fact_index as int));
        assert(log.subrange(0, fact_index + 1).last() == fact@);
        let is_many = attribute_is_many(fact.attribute(), &index);
        assert(is_many == routes_many(sch, fact@));
        if is_many {
            handle_many_attribute(fact, &mut attributes_many);
        } else {
            handle_one_attribute(fact, &mut attributes_one);
        }
        fact_index = fact_index + 1;
    }
    assert(log.subrange(0, facts.len() as int) =~= log);
    let active_facts = Vec::new();
    let active_facts = get_attributes_one(&attributes_one, active_facts);
    let ghost ones = active_facts.deep_view();
    let active_facts = get_attributes_many(&attributes_many, active_facts);
    proof {
        let out = active_facts.deep_view();
        let ms = attributes_many@;
        assert(out.subrange(0, out.len() - ms.len()) =~= ones);
        assert(ones.subrange(0, 0) =~= Seq::<FactModel>::empty());
        assert(ones =~= ones.subrange(0, ones.len() as int));
        assert(triples_of(out.subrange(out.len() - ms.len(), out.len() as int)) =~= ms);
        assert forall|i: int| 0 <= i < out.len() implies #[trigger] out[i].operation by {
            if i < ones.len() {
                assert(ones.subrange(0, ones.len() as int)[i] == ones[i]);
            }
        }
    }
    active_facts
}

} // verus!
