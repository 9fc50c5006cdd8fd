use vstd::prelude::*;

verus! {

/// The mathematical meaning of a [`FactValue`].
pub enum ValueModel {
    Text(Seq<char>),
    Integer(int),
}

/// A scalar held by a fact: either text or a 64-bit signed integer.
///
/// Two values are equal only when they are of the same variant and hold the
/// same payload; text never equals an integer, whatever their renderings.
#[derive(Debug, Clone)]
pub enum FactValue {
    StringValue(String),
    IntValue(i64),
}

impl View for FactValue {
    type V = ValueModel;

    open spec fn view(&self) -> ValueModel {
        match self {
            FactValue::StringValue(s) => ValueModel::Text(s@),
            FactValue::IntValue(i) => ValueModel::Integer(*i as int),
        }
    }
}

impl FactValue {
    /// An owned copy holding the same value.
    pub fn duplicate(&self) -> (r: FactValue)
        ensures
            r@ == self@,
    {
        match self {
            FactValue::StringValue(s) => FactValue::StringValue(s.clone()),
            FactValue::IntValue(i) => FactValue::IntValue(*i),
        }
    }

    /// Typed equality: same variant and same payload.
    pub fn same_as(&self, other: &FactValue) -> (r: bool)
        ensures
            r == (self@ == other@),
    {
        match self {
            FactValue::StringValue(a) => match other {
                FactValue::StringValue(b) => a.eq(b),
                FactValue::IntValue(_) => false,
            },
            FactValue::IntValue(a) => match other {
                FactValue::StringValue(_) => false,
                FactValue::IntValue(b) => *a == *b,
            },
        }
    }
}

impl PartialEq for FactValue {
    fn eq(&self, other: &FactValue) -> (r: bool) {
        self.same_as(other)
    }
}

impl vstd::std_specs::cmp::PartialEqSpecImpl for FactValue {
    open spec fn obeys_eq_spec() -> bool {
        true
    }

    open spec fn eq_spec(&self, other: &FactValue) -> bool {
        self@ == other@
    }
}

} // verus!
