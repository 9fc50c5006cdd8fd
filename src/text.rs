use vstd::prelude::*;

use crate::fact::{Fact, FactModel};
use crate::value::{FactValue, ValueModel};

verus! {

/// The decimal digit character for `d < 10`.
pub open spec fn digit_char(d: nat) -> char {
    seq!['0', '1', '2', '3', '4', '5', '6', '7', '8', '9'][d as int]
}

/// The decimal digits of `n`, most significant first, without leading zeros.
pub open spec fn decimal_digits(n: nat) -> Seq<char>
    decreases n,
{
    if n < 10 {
        seq![digit_char(n)]
    } else {
        decimal_digits(n / 10).push(digit_char(n % 10))
    }
}

/// The decimal rendering of an integer, with a leading `-` when negative.
pub open spec fn integer_text(i: int) -> Seq<char> {
    if i < 0 {
        seq!['-'] + decimal_digits((-i) as nat)
    } else {
        decimal_digits(i as nat)
    }
}

/// How a value is written: text as it is, an integer in decimal.
pub open spec fn value_text(v: ValueModel) -> Seq<char> {
    match v {
        ValueModel::Text(s) => s,
        ValueModel::Integer(i) => integer_text(i),
    }
}

/// The diagnostic rendering `(entity,attribute,value)`.
pub open spec fn fact_text(f: FactModel) -> Seq<char> {
    seq!['('] + f.entity + seq![','] + f.attribute + seq![','] + value_text(f.value) + seq![')']
}

/// The record `entity---attribute---value---True` of an active fact.
pub open spec fn fact_record(f: FactModel) -> Seq<char> {
    f.entity + "---"@ + f.attribute + "---"@ + value_text(f.value) + "---True"@
}

/// The records of `facts`, each followed by a newline.
pub open spec fn facts_records(facts: Seq<FactModel>) -> Seq<char>
    decreases facts.len(),
{
    if facts.len() == 0 {
        Seq::empty()
    } else {
        facts_records(facts.drop_last()) + fact_record(facts.last()) + "\n"@
    }
}

/// Relies on the `Display` of `i64` (through `ToString`): decimal digits
/// without leading zeros, preceded by `-` for a negative number.
#[verifier::external_body]
fn integer_to_text(i: i64) -> (r: String)
    ensures
        r@ == integer_text(i as int),
{
    i.to_string()
}

impl FactValue {
    /// The value as text: a string as it is, an integer in decimal.
    pub fn to_text(&self) -> (r: String)
        ensures
            r@ == value_text(self@),
    {
        match self {
            FactValue::StringValue(s) => s.clone(),
            FactValue::IntValue(i) => integer_to_text(*i),
        }
    }
}

impl Fact {
    /// The rendering `(entity,attribute,value)`.
    pub fn to_text(&self) -> (r: String)
        ensures
            r@ == fact_text(self@),
    {
        let mut out = "(".to_string();
        out.append(self.entity().as_str());
        out.append(",");
        out.append(self.attribute().as_str());
        out.append(",");
        out.append(self.value().to_text().as_str());
        out.append(")");
        proof {
            reveal_strlit("(");
            reveal_strlit(",");
            reveal_strlit(")");
        }
        assert(out@ =~= fact_text(self@));
        out
    }

    /// The record written for an active fact:
    /// `entity---attribute---value---True`.
    pub fn to_file(&self) -> (r: String)
        ensures
            r@ == fact_record(self@),
    {
        let mut out = self.entity().clone();
        out.append("---");
        out.append(self.attribute().as_str());
        out.append("---");
        out.append(self.value().to_text().as_str());
        out.append("---True");
        out
    }
}

/// The text of a file of active facts: each fact's record followed by a
/// newline.
pub fn facts_to_file(facts: &Vec<Fact>) -> (r: String)
    ensures
        r@ == facts_records(facts.deep_view()),
{
    let mut content = String::new();
    let mut i: usize = 0;
    while i < facts.len()
        invariant
            i <= facts.len(),
            content@ == facts_records(facts.deep_view().subrange(0, i as int)),
        decreases facts.len() - i,
    {
        let ghost prefix = facts.deep_view().subrange(0, i + 1);
        assert(prefix.drop_last() =~= facts.deep_view().subrange(0, i as int));
        assert(prefix.last() == facts[i as int]@);
        content.append(facts[i].to_file().as_str());
        content.append("\n");
        i = i + 1;
    }
    assert(facts.deep_view().subrange(0, i as int) =~= facts.deep_view());
    content
}

} // verus!
