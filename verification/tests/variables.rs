use symbolic_reasoning::{Bindings, Double, FactValue};

fn text(value: &str) -> FactValue {
    FactValue::Text(value.to_string())
}

#[test]
fn new_bindings_are_empty() {
    let bindings = Bindings::new();
    assert!(bindings.get("x").is_none());
    assert!(!bindings.contains_key("x"));
    assert!(!bindings.contains_key(""));
}

#[test]
fn a_binding_is_read_back() {
    let mut bindings = Bindings::new();
    bindings.insert("x".to_string(), FactValue::Integer(1));
    bindings.insert("y".to_string(), text("two"));
    assert_eq!(bindings.get("x"), Some(&FactValue::Integer(1)));
    assert_eq!(bindings.get("y"), Some(&text("two")));
    assert_eq!(bindings.get("z"), None);
    assert!(bindings.contains_key("x"));
    assert!(!bindings.contains_key("z"));
    assert!(!bindings.contains_key("X"));
}

#[test]
fn a_binding_is_written_over() {
    let mut bindings = Bindings::new();
    bindings.insert("x".to_string(), FactValue::Integer(1));
    bindings.insert("y".to_string(), FactValue::Integer(2));
    bindings.insert("x".to_string(), FactValue::Boolean(true));
    assert_eq!(bindings.get("x"), Some(&FactValue::Boolean(true)));
    assert_eq!(bindings.get("y"), Some(&FactValue::Integer(2)));
    bindings.insert("y".to_string(), FactValue::Float(Double::from_bits(1.5f64.to_bits())));
    bindings.insert("x".to_string(), text("last"));
    assert_eq!(bindings.get("x"), Some(&text("last")));
    assert_eq!(bindings.get("y"), Some(&FactValue::Float(Double::from_bits(1.5f64.to_bits()))));
}

#[test]
fn merged_bindings_win_over_those_that_were_there() {
    let mut left = Bindings::new();
    left.insert("a".to_string(), FactValue::Integer(1));
    left.insert("b".to_string(), FactValue::Integer(2));
    let mut right = Bindings::new();
    right.insert("b".to_string(), FactValue::Integer(20));
    right.insert("c".to_string(), FactValue::Integer(30));
    left.extend(&right);
    assert_eq!(left.get("a"), Some(&FactValue::Integer(1)));
    assert_eq!(left.get("b"), Some(&FactValue::Integer(20)));
    assert_eq!(left.get("c"), Some(&FactValue::Integer(30)));
    assert_eq!(left.get("d"), None);
    // the merged map is left as it was
    assert_eq!(right.get("a"), None);
    assert_eq!(right.get("b"), Some(&FactValue::Integer(20)));
}

#[test]
fn merging_a_map_into_its_copy_changes_nothing() {
    let mut bindings = Bindings::new();
    bindings.insert("a".to_string(), FactValue::Integer(1));
    bindings.insert("b".to_string(), text("two"));
    let copy = bindings.clone();
    bindings.extend(&copy);
    bindings.extend(&Bindings::new());
    assert_eq!(bindings.get("a"), Some(&FactValue::Integer(1)));
    assert_eq!(bindings.get("b"), Some(&text("two")));
    assert_eq!(bindings.get("c"), None);
}

#[test]
fn a_copy_is_apart_from_what_it_copies() {
    let mut bindings = Bindings::new();
    bindings.insert("a".to_string(), FactValue::Integer(1));
    let mut copy = bindings.clone();
    assert_eq!(copy.get("a"), Some(&FactValue::Integer(1)));
    copy.insert("a".to_string(), FactValue::Integer(2));
    copy.insert("b".to_string(), FactValue::Integer(3));
    assert_eq!(bindings.get("a"), Some(&FactValue::Integer(1)));
    assert_eq!(bindings.get("b"), None);
    assert_eq!(copy.get("a"), Some(&FactValue::Integer(2)));
}
