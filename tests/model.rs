use fact_reducer::{
    attribute_is_many, facts_to_file, get_attributes_many, get_attributes_one,
    handle_many_attribute, handle_one_attribute, parse_fact_line, parse_schema_line, split_line,
    Cardinality, CardinalityIndex, Fact, FactValue, MultiValueStore, SchemaFact, SingleValueStore,
};

fn fact(e: &str, a: &str, v: FactValue, op: bool) -> Fact {
    Fact::new(e.to_string(), a.to_string(), v, op)
}

#[test]
fn fact_equality_ignores_operation() {
    let a = fact("e", "a", FactValue::IntValue(1), true);
    let b = fact("e", "a", FactValue::IntValue(1), false);
    assert!(a == b);
    assert!(a != fact("e", "a", FactValue::IntValue(2), true));
    assert!(a != fact("x", "a", FactValue::IntValue(1), true));
    assert!(a != fact("e", "x", FactValue::IntValue(1), true));
}

#[test]
fn value_equality_is_typed() {
    assert!(FactValue::IntValue(25) != FactValue::StringValue("25".to_string()));
    assert!(FactValue::StringValue("25".to_string()) == FactValue::StringValue("25".to_string()));
    assert!(FactValue::IntValue(25).same_as(&FactValue::IntValue(25)));
    assert!(!FactValue::IntValue(25).same_as(&FactValue::StringValue("25".to_string())));
}

#[test]
fn renders_facts() {
    let f = fact("e1", "depth", FactValue::IntValue(-42), false);
    assert_eq!(f.to_text(), "(e1,depth,-42)");
    assert_eq!(f.to_file(), "e1---depth----42---True");
    assert_eq!(FactValue::IntValue(i64::MIN).to_text(), "-9223372036854775808");
    assert_eq!(FactValue::StringValue("abc".to_string()).to_text(), "abc");
    let g = fact("e2", "label", FactValue::StringValue("x y".to_string()), true);
    assert_eq!(facts_to_file(&vec![f, g]), "e1---depth----42---True\ne2---label---x y---True\n");
    assert_eq!(facts_to_file(&vec![]), "");
}

#[test]
fn splits_lines_on_separator() {
    assert_eq!(split_line("a---b---c"), vec!["a", "b", "c"]);
    assert_eq!(split_line("a----b"), vec!["a", "-b"]);
    assert_eq!(split_line(""), vec![""]);
    assert_eq!(split_line("---"), vec!["", ""]);
    assert_eq!(split_line("a--b"), vec!["a--b"]);
}

#[test]
fn parses_fact_lines() {
    let f = parse_fact_line("e1---depth---10---True").unwrap();
    assert_eq!(f.entity(), "e1");
    assert_eq!(f.attribute(), "depth");
    assert_eq!(f.value(), &FactValue::IntValue(10));
    assert!(f.operation());
    let g = parse_fact_line("e1---label---10a---false").unwrap();
    assert_eq!(g.value(), &FactValue::StringValue("10a".to_string()));
    assert!(!g.operation());
    assert_eq!(parse_fact_line("e---a---+7---true").unwrap().value(), &FactValue::IntValue(7));
    assert_eq!(parse_fact_line("e---a----7---yes").unwrap().value(), &FactValue::IntValue(-7));
    assert!(!parse_fact_line("e---a---1---yes").unwrap().operation());
    assert_eq!(
        parse_fact_line("e---a---99999999999999999999---True").unwrap().value(),
        &FactValue::StringValue("99999999999999999999".to_string())
    );
    assert!(parse_fact_line("e---a---1").is_none());
}

#[test]
fn parses_schema_lines() {
    let s = parse_schema_line("depth---cardinality---many").unwrap();
    assert_eq!(s.entity(), "depth");
    assert_eq!(s.attribute(), "cardinality");
    assert_eq!(s.value(), "many");
    assert!(parse_schema_line("depth---cardinality").is_none());
}

#[test]
fn cardinality_index_lookup() {
    let schema = vec![
        SchemaFact::new("a".to_string(), "cardinality".to_string(), "many".to_string()),
        SchemaFact::new("b".to_string(), "cardinality".to_string(), "one".to_string()),
        SchemaFact::new("c".to_string(), "cardinality".to_string(), "whatever".to_string()),
        SchemaFact::new("b".to_string(), "cardinality".to_string(), "many".to_string()),
    ];
    let index = CardinalityIndex::build(&schema);
    assert_eq!(index.lookup(&"a".to_string()), Some(Cardinality::Many));
    assert_eq!(index.lookup(&"b".to_string()), Some(Cardinality::Many));
    assert_eq!(index.lookup(&"c".to_string()), Some(Cardinality::One));
    assert_eq!(index.lookup(&"d".to_string()), None);
    assert!(attribute_is_many(&"a".to_string(), &index));
    assert!(!attribute_is_many(&"c".to_string(), &index));
    assert!(!attribute_is_many(&"d".to_string(), &index));
}

#[test]
fn stores_apply_and_flatten() {
    let mut one = SingleValueStore::new();
    handle_one_attribute(&fact("e", "a", FactValue::IntValue(1), true), &mut one);
    handle_one_attribute(&fact("e", "a", FactValue::IntValue(2), true), &mut one);
    handle_one_attribute(&fact("e", "b", FactValue::IntValue(3), true), &mut one);
    handle_one_attribute(&fact("e", "b", FactValue::IntValue(3), false), &mut one);
    let out = get_attributes_one(&one, vec![fact("x", "y", FactValue::IntValue(0), true)]);
    let texts: Vec<String> = out.iter().map(|f| f.to_text()).collect();
    assert_eq!(texts, vec!["(x,y,0)", "(e,a,2)"]);

    let mut many = MultiValueStore::new();
    handle_many_attribute(&fact("e", "m", FactValue::IntValue(1), true), &mut many);
    handle_many_attribute(&fact("e", "m", FactValue::IntValue(2), true), &mut many);
    handle_many_attribute(&fact("e", "m", FactValue::IntValue(1), true), &mut many);
    handle_many_attribute(&fact("e", "n", FactValue::IntValue(1), true), &mut many);
    handle_many_attribute(&fact("e", "m", FactValue::IntValue(1), false), &mut many);
    let out = get_attributes_many(&many, vec![]);
    let texts: Vec<String> = out.iter().map(|f| f.to_text()).collect();
    assert_eq!(texts, vec!["(e,m,2)", "(e,n,1)"]);
    assert!(out.iter().all(|f| f.operation()));
}
