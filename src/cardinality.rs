use vstd::prelude::*;

use crate::fact::{SchemaFact, SchemaModel};

verus! {

broadcast use vstd::string::to_string_from_display_ensures_for_str;

/// Whether an attribute holds at most one active value per entity, or many.
#[derive(Debug, Clone, Copy, PartialEq, Eq, Structural)]
pub enum Cardinality {
    One,
    Many,
}

/// The attribute of a schema triple that marks a cardinality declaration.
pub open spec fn cardinality_word() -> Seq<char> {
    "cardinality"@
}

/// The cardinality that a declaration's value text stands for: `"many"` is
/// many-valued, any other text single-valued.
pub open spec fn cardinality_named(value: Seq<char>) -> Cardinality {
    if value == "many"@ {
        Cardinality::Many
    } else {
        Cardinality::One
    }
}

/// The cardinality that `schema` declares for `attribute`: the last
/// declaration for it wins; `None` where there is none.
pub open spec fn declared_cardinality(schema: Seq<SchemaModel>, attribute: Seq<char>) -> Option<
    Cardinality,
>
    decreases schema.len(),
{
    if schema.len() == 0 {
        None
    } else {
        let last = schema.last();
        if last.attribute == cardinality_word() && last.entity == attribute {
            Some(cardinality_named(last.value))
        } else {
            declared_cardinality(schema.drop_last(), attribute)
        }
    }
}

/// The cardinality under which facts about `attribute` are reduced. An
/// attribute that the schema does not declare is treated as single-valued.
pub open spec fn effective_cardinality(schema: Seq<SchemaModel>, attribute: Seq<char>) -> Cardinality {
    match declared_cardinality(schema, attribute) {
        Some(c) => c,
        None => Cardinality::One,
    }
}

/// Last declaration wins in a list of (attribute, cardinality) declarations.
pub open spec fn lookup_declarations(decls: Seq<(Seq<char>, Cardinality)>, attribute: Seq<char>) -> Option<
    Cardinality,
>
    decreases decls.len(),
{
    if decls.len() == 0 {
        None
    } else if decls.last().0 == attribute {
        Some(decls.last().1)
    } else {
        lookup_declarations(decls.drop_last(), attribute)
    }
}

/// The meaning of a list of declarations held with owned names.
pub open spec fn declarations_view(decls: Seq<(String, Cardinality)>) -> Seq<(Seq<char>, Cardinality)> {
    decls.map_values(|d: (String, Cardinality)| (d.0@, d.1))
}

/// The cardinality declarations of a schema, in schema order, ready for
/// lookup by attribute name.
pub struct CardinalityIndex {
    declarations: Vec<(String, Cardinality)>,
}

impl View for CardinalityIndex {
    type V = Seq<(Seq<char>, Cardinality)>;

    closed spec fn view(&self) -> Seq<(Seq<char>, Cardinality)> {
        declarations_view(self.declarations@)
    }
}

impl CardinalityIndex {
    /// The cardinality that this index records for `attribute`.
    pub open spec fn spec_lookup(&self, attribute: Seq<char>) -> Option<Cardinality> {
        lookup_declarations(self@, attribute)
    }

    /// Collects the cardinality declarations of `schema`.
    pub fn build(schema: &Vec<SchemaFact>) -> (r: CardinalityIndex)
        ensures
            forall|a: Seq<char>| #[trigger]
                r.spec_lookup(a) == declared_cardinality(schema.deep_view(), a),
    {
        let word = "cardinality".to_string();
        let many = "many".to_string();
        proof {
            reveal_strlit("cardinality");
            reveal_strlit("many");
        }
        let mut declarations: Vec<(String, Cardinality)> = Vec::new();
        let mut i: usize = 0;
        while i < schema.len()
            invariant
                i <= schema.len(),
                word@ == cardinality_word(),
                many@ == "many"@,
                forall|a: Seq<char>| #[trigger]
                    lookup_declarations(declarations_view(declarations@), a)
                        == declared_cardinality(schema.deep_view().subrange(0, i as int), a),
            decreases schema.len() - i,
        {
            let entry = &schema[i];
            let ghost seen = schema.deep_view().subrange(0, i + 1);
            let ghost prior = declarations@;
            assert(seen.last() == entry@);
            assert(seen.drop_last() =~= schema.deep_view().subrange(0, i as int));
            if entry.attribute().eq(&word) {
                let c = if entry.value().eq(&many) {
                    Cardinality::Many
                } else {
                    Cardinality::One
                };
                declarations.push((entry.entity().clone(), c));
                assert(declarations_view(declarations@).drop_last() =~= declarations_view(prior));
            }
            assert forall|a: Seq<char>| #[trigger]
                lookup_declarations(declarations_view(declarations@), a) == declared_cardinality(
                    seen,
                    a,
                ) by {
                assert(lookup_declarations(declarations_view(prior), a) == declared_cardinality(
                    seen.drop_last(),
                    a,
                ));
            }
            i = i + 1;
        }
        assert(schema.deep_view().subrange(0, schema.len() as int) =~= schema.deep_view());
        CardinalityIndex { declarations }
    }

    /// The cardinality recorded for `attribute`, or `None` where the schema
    /// declares none.
    pub fn lookup(&self, attribute: &String) -> (r: Option<Cardinality>)
        ensures
            r == self.spec_lookup(attribute@),
    {
        let mut i: usize = self.declarations.len();
        assert(self@.subrange(0, i as int) =~= self@);
        while i > 0
            invariant
                i <= self.declarations.len(),
                lookup_declarations(self@, attribute@) == lookup_declarations(
                    self@.subrange(0, i as int),
                    attribute@,
                ),
            decreases i,
        {
            let d = &self.declarations[i - 1];
            assert(self@.subrange(0, i as int).drop_last() =~= self@.subrange(0, i - 1));
            assert(self@.subrange(0, i as int).last() == (d.0@, d.1));
            if d.0.eq(attribute) {
                return Some(d.1);
            }
            i = i - 1;
        }
        None
    }
}

/// Whether facts about `attribute` go to the many-valued store: true exactly
/// when the last declaration for it says `"many"`. An undeclared attribute
/// is single-valued.
pub fn attribute_is_many(attribute: &String, index: &CardinalityIndex) -> (r: bool)
    ensures
        r == (index.spec_lookup(attribute@) == Some(Cardinality::Many)),
{
    match index.lookup(attribute) {
        Some(Cardinality::Many) => true,
        _ => false,
    }
}

} // verus!
