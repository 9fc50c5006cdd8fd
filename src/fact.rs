use vstd::prelude::*;

use crate::value::{FactValue, ValueModel};

verus! {

/// The mathematical meaning of a [`Fact`].
pub struct FactModel {
    pub entity: Seq<char>,
    pub attribute: Seq<char>,
    pub value: ValueModel,
    pub operation: bool,
}

/// What identifies a slot of state: an entity and one of its attributes.
pub type Key = (Seq<char>, Seq<char>);

/// An active entity-attribute-value triple.
pub type Triple = (Seq<char>, Seq<char>, ValueModel);

impl FactModel {
    pub open spec fn key(self) -> Key {
        (self.entity, self.attribute)
    }

    pub open spec fn triple(self) -> Triple {
        (self.entity, self.attribute, self.value)
    }
}

/// One record of the log: an entity, an attribute, a value, and whether the
/// value is asserted (`true`) or retracted (`false`).
///
/// Two facts are equal when entity, attribute and value agree; the
/// operation takes no part in equality.
#[derive(Debug, Clone)]
pub struct Fact {
    attribute: String,
    entity: String,
    value: FactValue,
    operation: bool,
}

impl View for Fact {
    type V = FactModel;

    closed spec fn view(&self) -> FactModel {
        FactModel {
            entity: self.entity@,
            attribute: self.attribute@,
            value: self.value@,
            operation: self.operation,
        }
    }
}

impl DeepView for Fact {
    type V = FactModel;

    open spec fn deep_view(&self) -> FactModel {
        self@
    }
}

impl Fact {
    pub fn new(entity: String, attribute: String, value: FactValue, operation: bool) -> (r: Fact)
        ensures
            r@ == (FactModel { entity: entity@, attribute: attribute@, value: value@, operation }),
    {
        Fact { attribute, entity, value, operation }
    }

    pub fn entity(&self) -> (r: &String)
        ensures
            r@ == self@.entity,
    {
        &self.entity
    }

    pub fn attribute(&self) -> (r: &String)
        ensures
            r@ == self@.attribute,
    {
        &self.attribute
    }

    pub fn value(&self) -> (r: &FactValue)
        ensures
            r@ == self@.value,
    {
        &self.value
    }

    pub fn operation(&self) -> (r: bool)
        ensures
            r == self@.operation,
    {
        self.operation
    }
}

impl PartialEq for Fact {
    fn eq(&self, other: &Fact) -> (r: bool) {
        self.entity.eq(&other.entity) && self.attribute.eq(&other.attribute) && self.value.same_as(
            &other.value,
        )
    }
}

impl vstd::std_specs::cmp::PartialEqSpecImpl for Fact {
    open spec fn obeys_eq_spec() -> bool {
        true
    }

    open spec fn eq_spec(&self, other: &Fact) -> bool {
        self@.triple() == other@.triple()
    }
}

/// The mathematical meaning of a [`SchemaFact`].
pub struct SchemaModel {
    pub entity: Seq<char>,
    pub attribute: Seq<char>,
    pub value: Seq<char>,
}

/// A metadata triple of the schema. A cardinality declaration names the
/// described attribute as `entity`, has `attribute == "cardinality"` and
/// `value` either `"one"` or `"many"`.
#[derive(Debug, Clone)]
pub struct SchemaFact {
    entity: String,
    attribute: String,
    value: String,
}

impl View for SchemaFact {
    type V = SchemaModel;

    closed spec fn view(&self) -> SchemaModel {
        SchemaModel { entity: self.entity@, attribute: self.attribute@, value: self.value@ }
    }
}

impl DeepView for SchemaFact {
    type V = SchemaModel;

    open spec fn deep_view(&self) -> SchemaModel {
        self@
    }
}

impl SchemaFact {
    pub fn new(entity: String, attribute: String, value: String) -> (r: SchemaFact)
        ensures
            r@ == (SchemaModel { entity: entity@, attribute: attribute@, value: value@ }),
    {
        SchemaFact { entity, attribute, value }
    }

    pub fn entity(&self) -> (r: &String)
        ensures
            r@ == self@.entity,
    {
        &self.entity
    }

    pub fn attribute(&self) -> (r: &String)
        ensures
            r@ == self@.attribute,
    {
        &self.attribute
    }

    pub fn value(&self) -> (r: &String)
        ensures
            r@ == self@.value,
    {
        &self.value
    }
}

} // verus!
