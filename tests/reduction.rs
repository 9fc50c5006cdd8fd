use fact_reducer::{get_active_facts, Fact, FactValue, SchemaFact};

fn text(s: &str) -> FactValue {
    FactValue::StringValue(s.to_string())
}

fn assert_fact(e: &str, a: &str, v: FactValue) -> Fact {
    Fact::new(e.to_string(), a.to_string(), v, true)
}

fn retract_fact(e: &str, a: &str, v: FactValue) -> Fact {
    Fact::new(e.to_string(), a.to_string(), v, false)
}

fn declare(attribute: &str, cardinality: &str) -> SchemaFact {
    SchemaFact::new(attribute.to_string(), "cardinality".to_string(), cardinality.to_string())
}

fn rendered(facts: &[Fact]) -> Vec<String> {
    let mut out: Vec<String> = facts.iter().map(|f| f.to_text()).collect();
    out.sort();
    out
}

#[test]
fn scenario_single_valued_depth_overwritten() {
    let log = vec![
        assert_fact("e1", "label", text("primeira")),
        assert_fact("e1", "depth", FactValue::IntValue(10)),
        assert_fact("e1", "depth", FactValue::IntValue(25)),
    ];
    let schema = vec![declare("label", "one"), declare("depth", "one")];
    let active = get_active_facts(&log, &schema);
    assert_eq!(rendered(&active), vec!["(e1,depth,25)".to_string(), "(e1,label,primeira)".to_string()]);
    assert!(active.iter().all(|f| f.operation()));
}

#[test]
fn scenario_many_valued_retract() {
    let log = vec![
        assert_fact("e2", "test", text("abc")),
        assert_fact("e2", "test", text("ab")),
        retract_fact("e2", "test", text("ab")),
    ];
    let schema = vec![declare("test", "many")];
    let active = get_active_facts(&log, &schema);
    assert_eq!(rendered(&active), vec!["(e2,test,abc)".to_string()]);
}

#[test]
fn last_assert_wins_for_single_valued() {
    let log = vec![assert_fact("e", "a", text("A")), assert_fact("e", "a", text("B"))];
    let active = get_active_facts(&log, &vec![declare("a", "one")]);
    assert_eq!(rendered(&active), vec!["(e,a,B)".to_string()]);
}

#[test]
fn retract_then_reassert_single_valued() {
    let log = vec![
        assert_fact("e", "a", text("A")),
        retract_fact("e", "a", text("A")),
        assert_fact("e", "a", text("A")),
    ];
    let active = get_active_facts(&log, &vec![declare("a", "one")]);
    assert_eq!(rendered(&active), vec!["(e,a,A)".to_string()]);
}

#[test]
fn retract_of_never_asserted_value_is_noop() {
    let log = vec![assert_fact("e", "a", text("A")), retract_fact("e", "a", text("Z"))];
    let active = get_active_facts(&log, &vec![declare("a", "one")]);
    assert_eq!(rendered(&active), vec!["(e,a,A)".to_string()]);
}

#[test]
fn retract_of_superseded_value_is_noop() {
    let log = vec![
        assert_fact("e", "a", text("A")),
        assert_fact("e", "a", text("B")),
        retract_fact("e", "a", text("A")),
    ];
    let active = get_active_facts(&log, &vec![declare("a", "one")]);
    assert_eq!(rendered(&active), vec!["(e,a,B)".to_string()]);
}

#[test]
fn retract_on_empty_log_is_noop() {
    let log = vec![retract_fact("e", "m", text("A"))];
    let active = get_active_facts(&log, &vec![declare("m", "many")]);
    assert!(active.is_empty());
}

#[test]
fn many_valued_duplicates_removed_by_one_retract() {
    let log = vec![
        assert_fact("e", "m", text("x")),
        assert_fact("e", "m", text("x")),
        retract_fact("e", "m", text("x")),
    ];
    let active = get_active_facts(&log, &vec![declare("m", "many")]);
    assert!(active.is_empty());
}

#[test]
fn many_valued_duplicates_accumulate() {
    let log = vec![
        assert_fact("e", "m", text("x")),
        assert_fact("e", "m", text("x")),
        assert_fact("e", "m", text("y")),
    ];
    let active = get_active_facts(&log, &vec![declare("m", "many")]);
    let texts: Vec<String> = active.iter().map(|f| f.to_text()).collect();
    assert_eq!(texts, vec!["(e,m,x)", "(e,m,x)", "(e,m,y)"]);
}

#[test]
fn text_retract_keeps_integer_single_valued() {
    let log = vec![
        assert_fact("e", "a", FactValue::IntValue(25)),
        retract_fact("e", "a", text("25")),
    ];
    let active = get_active_facts(&log, &vec![declare("a", "one")]);
    assert_eq!(rendered(&active), vec!["(e,a,25)".to_string()]);
    assert_eq!(active[0].value(), &FactValue::IntValue(25));
}

#[test]
fn text_retract_keeps_integer_many_valued() {
    let log = vec![
        assert_fact("e", "m", FactValue::IntValue(25)),
        assert_fact("e", "m", text("25")),
        retract_fact("e", "m", text("25")),
    ];
    let active = get_active_facts(&log, &vec![declare("m", "many")]);
    assert_eq!(active.len(), 1);
    assert_eq!(active[0].value(), &FactValue::IntValue(25));
}

#[test]
fn undeclared_attribute_is_single_valued() {
    let log = vec![assert_fact("e", "free", text("A")), assert_fact("e", "free", text("B"))];
    let active = get_active_facts(&log, &vec![]);
    assert_eq!(rendered(&active), vec!["(e,free,B)".to_string()]);
}

#[test]
fn last_schema_declaration_wins() {
    let log = vec![assert_fact("e", "a", text("A")), assert_fact("e", "a", text("B"))];
    let schema = vec![declare("a", "one"), declare("a", "many")];
    let active = get_active_facts(&log, &schema);
    assert_eq!(rendered(&active), vec!["(e,a,A)".to_string(), "(e,a,B)".to_string()]);
    let schema = vec![declare("a", "many"), declare("a", "one")];
    let active = get_active_facts(&log, &schema);
    assert_eq!(rendered(&active), vec!["(e,a,B)".to_string()]);
}

#[test]
fn non_cardinality_schema_entries_are_ignored() {
    let log = vec![assert_fact("e", "a", text("A")), assert_fact("e", "a", text("B"))];
    let schema = vec![SchemaFact::new("a".to_string(), "doc".to_string(), "many".to_string())];
    let active = get_active_facts(&log, &schema);
    assert_eq!(rendered(&active), vec!["(e,a,B)".to_string()]);
}

#[test]
fn separate_entities_keep_separate_values() {
    let log = vec![
        assert_fact("e1", "a", text("A")),
        assert_fact("e2", "a", text("B")),
        retract_fact("e1", "a", text("A")),
    ];
    let active = get_active_facts(&log, &vec![declare("a", "one")]);
    assert_eq!(rendered(&active), vec!["(e2,a,B)".to_string()]);
}

#[test]
fn single_valued_facts_come_before_many_valued() {
    let log = vec![assert_fact("e", "m", text("x")), assert_fact("e", "a", text("A"))];
    let schema = vec![declare("m", "many"), declare("a", "one")];
    let active = get_active_facts(&log, &schema);
    let texts: Vec<String> = active.iter().map(|f| f.to_text()).collect();
    assert_eq!(texts, vec!["(e,a,A)", "(e,m,x)"]);
}

#[test]
fn empty_log_gives_no_facts() {
    let active = get_active_facts(&vec![], &vec![declare("a", "one")]);
    assert!(active.is_empty());
}
