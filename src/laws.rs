use vstd::prelude::*;

use crate::cardinality::{effective_cardinality, Cardinality};
use crate::fact::{FactModel, SchemaModel, Triple};
use crate::multi_store::{triples_of, without};
use crate::reducer::{flattens, multi_state, routes_many, single_state};
use crate::single_store::{key_of, lists_map};
use crate::value::ValueModel;

verus! {

/// The assertion of `value` for `entity` and `attribute`.
pub open spec fn asserting(entity: Seq<char>, attribute: Seq<char>, value: ValueModel) -> FactModel {
    FactModel { entity, attribute, value, operation: true }
}

/// The retraction of `value` for `entity` and `attribute`.
pub open spec fn retracting(entity: Seq<char>, attribute: Seq<char>, value: ValueModel) -> FactModel {
    FactModel { entity, attribute, value, operation: false }
}

/// The triples that are active after `log`, order left aside.
pub open spec fn active_triples(log: Seq<FactModel>, schema: Seq<SchemaModel>) -> Set<Triple> {
    Set::new(
        |t: Triple|
            {
                let m = single_state(log, schema);
                (m.contains_key(key_of(t)) && m[key_of(t)] == t.2) || multi_state(
                    log,
                    schema,
                ).contains(t)
            },
    )
}

/// One more fact of the log acts on the state that its attribute routes to.
pub proof fn lemma_step(log: Seq<FactModel>, schema: Seq<SchemaModel>, f: FactModel)
    ensures
        single_state(log.push(f), schema) == if routes_many(schema, f) {
            single_state(log, schema)
        } else {
            crate::single_store::apply_one(single_state(log, schema), f)
        },
        multi_state(log.push(f), schema) == if routes_many(schema, f) {
            crate::multi_store::apply_many(multi_state(log, schema), f)
        } else {
            multi_state(log, schema)
        },
{
    assert(log.push(f).drop_last() == log);
}

/// Removing every occurrence of `t` keeps exactly the other entries.
pub proof fn lemma_without_contains(s: Seq<Triple>, t: Triple, x: Triple)
    ensures
        without(s, t).contains(x) <==> (s.contains(x) && x != t),
    decreases s.len(),
{
    if s.len() > 0 {
        let p = s.drop_last();
        lemma_without_contains(p, t, x);
        if s.contains(x) && x != t && !p.contains(x) {
            let i = choose|i: int| 0 <= i < s.len() && s[i] == x;
            if i < p.len() {
                assert(p[i] == x);
            }
            assert(without(s, t).last() == x);
        }
        if p.contains(x) {
            let i = choose|i: int| 0 <= i < p.len() && p[i] == x;
            assert(s[i] == x);
        }
        if without(s, t).contains(x) && !without(p, t).contains(x) {
            assert(x == s.last());
            assert(s[s.len() - 1] == x);
        }
        if without(p, t).contains(x) && s.last() != t {
            let i = choose|i: int| 0 <= i < without(p, t).len() && without(p, t)[i] == x;
            assert(without(s, t)[i] == x);
        }
    }
}

/// Removing a triple that is not there changes nothing.
pub proof fn lemma_without_absent(s: Seq<Triple>, t: Triple)
    requires
        !s.contains(t),
    ensures
        without(s, t) == s,
    decreases s.len(),
{
    if s.len() > 0 {
        let p = s.drop_last();
        if p.contains(t) {
            let i = choose|i: int| 0 <= i < p.len() && p[i] == t;
            assert(s[i] == t);
        }
        lemma_without_absent(p, t);
        assert(s[s.len() - 1] != t);
        assert(p.push(s.last()) =~= s);
    }
}

/// Every value in the single-valued state belongs to a single-valued
/// attribute, every entry of the many-valued state to a many-valued one.
pub proof fn lemma_states_follow_cardinality(log: Seq<FactModel>, schema: Seq<SchemaModel>)
    ensures
        forall|k| #[trigger]
            single_state(log, schema).contains_key(k) ==> effective_cardinality(schema, k.1)
                == Cardinality::One,
        forall|t| #[trigger]
            multi_state(log, schema).contains(t) ==> effective_cardinality(schema, t.1)
                == Cardinality::Many,
    decreases log.len(),
{
    if log.len() > 0 {
        let p = log.drop_last();
        let f = log.last();
        lemma_states_follow_cardinality(p, schema);
        let prev_one = single_state(p, schema);
        let prev_many = multi_state(p, schema);
        assert forall|k| #[trigger]
            single_state(log, schema).contains_key(k) implies effective_cardinality(schema, k.1)
            == Cardinality::One by {
            if !routes_many(schema, f) && k == f.key() {
                assert(effective_cardinality(schema, f.attribute) != Cardinality::Many);
            } else {
                assert(prev_one.contains_key(k));
            }
        }
        assert forall|t| #[trigger]
            multi_state(log, schema).contains(t) implies effective_cardinality(schema, t.1)
            == Cardinality::Many by {
            if routes_many(schema, f) {
                if f.operation {
                    let s = prev_many.push(f.triple());
                    let i = choose|i: int| 0 <= i < s.len() && s[i] == t;
                    if i < prev_many.len() {
                        assert(prev_many[i] == t);
                        assert(prev_many.contains(t));
                    }
                } else {
                    lemma_without_contains(prev_many, f.triple(), t);
                }
            } else {
                assert(prev_many.contains(t));
            }
        }
    }
}

/// The order in which the flattening lists the single-valued entries does
/// not matter: every output of the reduction holds the same set of active
/// triples.
pub proof fn lemma_flatten_order_irrelevant(
    out: Seq<FactModel>,
    log: Seq<FactModel>,
    schema: Seq<SchemaModel>,
)
    requires
        flattens(out, single_state(log, schema), multi_state(log, schema)),
    ensures
        triples_of(out).to_set() == active_triples(log, schema),
{
    let m = single_state(log, schema);
    let ms = multi_state(log, schema);
    let n = out.len() - ms.len();
    let ones = triples_of(out.subrange(0, n));
    let manys = triples_of(out.subrange(n, out.len() as int));
    let all = triples_of(out);
    assert(all =~= ones + manys);
    assert forall|t: Triple| all.to_set().contains(t) <==> active_triples(log, schema).contains(
        t,
    ) by {
        if all.contains(t) {
            let i = choose|i: int| 0 <= i < all.len() && all[i] == t;
            if i < n {
                assert(ones[i] == t);
            } else {
                assert(manys[i - n] == t);
            }
        }
        if m.contains_key(key_of(t)) && m[key_of(t)] == t.2 {
            let i = choose|i: int| 0 <= i < ones.len() && key_of(ones[i]) == key_of(t);
            assert(all[i] == t);
        }
        if ms.contains(t) {
            let i = choose|i: int| 0 <= i < ms.len() && ms[i] == t;
            assert(all[n + i] == t);
        }
    }
    assert(all.to_set() =~= active_triples(log, schema));
}

/// For a single-valued attribute, asserting `x` and then `y` leaves `y` as
/// its only active value.
pub proof fn lemma_last_assert_wins(
    log: Seq<FactModel>,
    schema: Seq<SchemaModel>,
    entity: Seq<char>,
    attribute: Seq<char>,
    x: ValueModel,
    y: ValueModel,
)
    requires
        effective_cardinality(schema, attribute) == Cardinality::One,
    ensures
        ({
            let after = log.push(asserting(entity, attribute, x)).push(
                asserting(entity, attribute, y),
            );
            &&& single_state(after, schema) == single_state(log, schema).insert(
                (entity, attribute),
                y,
            )
            &&& multi_state(after, schema) == multi_state(log, schema)
            &&& forall|v: ValueModel|
                active_triples(after, schema).contains((entity, attribute, v)) <==> v == y
        }),
{
    let once = log.push(asserting(entity, attribute, x));
    let after = once.push(asserting(entity, attribute, y));
    lemma_step(log, schema, asserting(entity, attribute, x));
    lemma_step(once, schema, asserting(entity, attribute, y));
    assert(single_state(log, schema).insert((entity, attribute), x).insert((entity, attribute), y)
        =~= single_state(log, schema).insert((entity, attribute), y));
    lemma_states_follow_cardinality(after, schema);
    assert forall|v: ValueModel|
        active_triples(after, schema).contains((entity, attribute, v)) <==> v == y by {
        assert(key_of((entity, attribute, v)) == (entity, attribute));
        if multi_state(after, schema).contains((entity, attribute, v)) {
            assert(effective_cardinality(schema, attribute) == Cardinality::Many);
        }
    }
}

/// For a single-valued attribute, asserting `x`, retracting it and asserting
/// it again leaves `x` active.
pub proof fn lemma_retract_then_reassert(
    log: Seq<FactModel>,
    schema: Seq<SchemaModel>,
    entity: Seq<char>,
    attribute: Seq<char>,
    x: ValueModel,
)
    requires
        effective_cardinality(schema, attribute) == Cardinality::One,
    ensures
        ({
            let after = log.push(asserting(entity, attribute, x)).push(
                retracting(entity, attribute, x),
            ).push(asserting(entity, attribute, x));
            &&& single_state(after, schema) == single_state(log, schema).insert(
                (entity, attribute),
                x,
            )
            &&& multi_state(after, schema) == multi_state(log, schema)
            &&& forall|v: ValueModel|
                active_triples(after, schema).contains((entity, attribute, v)) <==> v == x
        }),
{
    let l1 = log.push(asserting(entity, attribute, x));
    let l2 = l1.push(retracting(entity, attribute, x));
    let after = l2.push(asserting(entity, attribute, x));
    lemma_step(log, schema, asserting(entity, attribute, x));
    lemma_step(l1, schema, retracting(entity, attribute, x));
    lemma_step(l2, schema, asserting(entity, attribute, x));
    let m = single_state(log, schema);
    assert(m.insert((entity, attribute), x).remove((entity, attribute)).insert((entity, attribute), x)
        =~= m.insert((entity, attribute), x));
    lemma_states_follow_cardinality(after, schema);
    assert forall|v: ValueModel|
        active_triples(after, schema).contains((entity, attribute, v)) <==> v == x by {
        assert(key_of((entity, attribute, v)) == (entity, attribute));
        if multi_state(after, schema).contains((entity, attribute, v)) {
            assert(effective_cardinality(schema, attribute) == Cardinality::Many);
        }
    }
}

/// Retracting a value that is not active, whether never asserted or already
/// superseded, changes neither state.
pub proof fn lemma_inactive_retract_is_noop(
    log: Seq<FactModel>,
    schema: Seq<SchemaModel>,
    entity: Seq<char>,
    attribute: Seq<char>,
    v: ValueModel,
)
    requires
        !active_triples(log, schema).contains((entity, attribute, v)),
    ensures
        single_state(log.push(retracting(entity, attribute, v)), schema) == single_state(
            log,
            schema,
        ),
        multi_state(log.push(retracting(entity, attribute, v)), schema) == multi_state(
            log,
            schema,
        ),
{
    let after = log.push(retracting(entity, attribute, v));
    assert(after.drop_last() == log);
    assert(key_of((entity, attribute, v)) == (entity, attribute));
    if routes_many(schema, retracting(entity, attribute, v)) {
        lemma_without_absent(multi_state(log, schema), (entity, attribute, v));
    }
}

/// For a many-valued attribute, asserting `x` twice and retracting it once
/// removes every occurrence: `x` is no longer active.
pub proof fn lemma_retract_removes_duplicates(
    log: Seq<FactModel>,
    schema: Seq<SchemaModel>,
    entity: Seq<char>,
    attribute: Seq<char>,
    x: ValueModel,
)
    requires
        effective_cardinality(schema, attribute) == Cardinality::Many,
    ensures
        ({
            let after = log.push(asserting(entity, attribute, x)).push(
                asserting(entity, attribute, x),
            ).push(retracting(entity, attribute, x));
            &&& multi_state(after, schema) == without(
                multi_state(log, schema),
                (entity, attribute, x),
            )
            &&& single_state(after, schema) == single_state(log, schema)
            &&& !active_triples(after, schema).contains((entity, attribute, x))
        }),
{
    let t = (entity, attribute, x);
    let l1 = log.push(asserting(entity, attribute, x));
    let l2 = l1.push(asserting(entity, attribute, x));
    let after = l2.push(retracting(entity, attribute, x));
    lemma_step(log, schema, asserting(entity, attribute, x));
    lemma_step(l1, schema, asserting(entity, attribute, x));
    lemma_step(l2, schema, retracting(entity, attribute, x));
    let s = multi_state(log, schema);
    let s2 = s.push(t).push(t);
    assert(s2.drop_last() =~= s.push(t));
    assert(s.push(t).drop_last() =~= s);
    assert(without(s.push(t), t) == without(s, t));
    assert(without(s2, t) == without(s, t));
    lemma_without_contains(s, t, t);
    lemma_states_follow_cardinality(after, schema);
    assert(key_of(t) == (entity, attribute));
    if single_state(after, schema).contains_key(key_of(t)) {
        assert(effective_cardinality(schema, key_of(t).1) == Cardinality::One);
    }
}

/// A retraction that carries text never cancels an active integer value,
/// whatever the two render as.
pub proof fn lemma_text_retract_keeps_integers(
    log: Seq<FactModel>,
    schema: Seq<SchemaModel>,
    entity: Seq<char>,
    attribute: Seq<char>,
    text: Seq<char>,
    other_entity: Seq<char>,
    other_attribute: Seq<char>,
    n: int,
)
    requires
        active_triples(log, schema).contains((other_entity, other_attribute, ValueModel::Integer(n))),
    ensures
        active_triples(
            log.push(retracting(entity, attribute, ValueModel::Text(text))),
            schema,
        ).contains((other_entity, other_attribute, ValueModel::Integer(n))),
{
    let f = retracting(entity, attribute, ValueModel::Text(text));
    let after = log.push(f);
    let t = (other_entity, other_attribute, ValueModel::Integer(n));
    assert(after.drop_last() == log);
    assert(key_of(t) == (other_entity, other_attribute));
    if routes_many(schema, f) {
        lemma_without_contains(multi_state(log, schema), f.triple(), t);
    }
}

} // verus!
