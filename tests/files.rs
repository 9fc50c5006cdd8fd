use fact_reducer::{
    facts_to_file, get_active_facts, parse_facts, parse_schema, split_on_separator,
    split_text_lines, FactValue,
};

#[test]
fn splits_text_into_lines() {
    assert_eq!(split_text_lines("a\nb\n"), vec!["a", "b"]);
    assert_eq!(split_text_lines("a\r\nb"), vec!["a", "b"]);
    assert_eq!(split_text_lines("a\nb\r"), vec!["a", "b\r"]);
    assert_eq!(split_text_lines("\n"), vec![""]);
    assert_eq!(split_text_lines("a\n\nb"), vec!["a", "", "b"]);
    assert!(split_text_lines("").is_empty());
}

#[test]
fn splits_on_any_separator() {
    assert_eq!(split_on_separator("x::y::", "::"), vec!["x", "y", ""]);
    assert_eq!(split_on_separator("xyz", "q"), vec!["xyz"]);
}

#[test]
fn parses_whole_files() {
    let facts = parse_facts("e1---label---primeira---True\ne1---depth---10---True\ne1---depth---25---true\n")
        .unwrap();
    assert_eq!(facts.len(), 3);
    assert_eq!(facts[1].value(), &FactValue::IntValue(10));
    let schema = parse_schema("label---cardinality---one\ndepth---cardinality---one\n").unwrap();
    assert_eq!(schema.len(), 2);
    let active = get_active_facts(&facts, &schema);
    let mut records: Vec<String> = active.iter().map(|f| f.to_file()).collect();
    records.sort();
    assert_eq!(records, vec!["e1---depth---25---True", "e1---label---primeira---True"]);
    let out = facts_to_file(&active);
    assert_eq!(parse_facts(&out).unwrap().len(), 2);
}

#[test]
fn rejects_short_records() {
    assert!(parse_facts("e---a---1---True\ne---a---2\n").is_none());
    assert!(parse_schema("a---cardinality\n").is_none());
    assert!(parse_facts("").unwrap().is_empty());
}
