//! Reduction of an ordered entity-attribute-value log of assertions and
//! retractions into the set of facts that are active at its end, honouring
//! the per-attribute cardinality declared in a schema.
//!
//! An attribute that the schema does not declare is reduced as a
//! single-valued one.
pub mod value;
pub mod fact;
pub mod cardinality;
pub mod multi_store;
pub mod single_store;
pub mod reducer;
pub mod laws;
pub mod text;
pub mod parse;

pub use cardinality::{attribute_is_many, Cardinality, CardinalityIndex};
pub use fact::{Fact, SchemaFact};
pub use multi_store::{get_attributes_many, handle_many_attribute, MultiValueStore};
pub use parse::{
    parse_fact_line, parse_facts, parse_schema, parse_schema_line, split_line, split_on_separator,
    split_text_lines,
};
pub use reducer::get_active_facts;
pub use single_store::{get_attributes_one, handle_one_attribute, SingleValueStore};
pub use text::facts_to_file;
pub use value::FactValue;
