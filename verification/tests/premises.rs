use symbolic_reasoning::{
    Bindings, ComparableValue, Comparison, Double, EngineError, Fact, FactValue, LogicalOperator, Symbol,
    SymbolicReasoningEngine,
};

fn float(value: f64) -> FactValue {
    FactValue::Float(Double::from_bits(value.to_bits()))
}

fn text(value: &str) -> FactValue {
    FactValue::Text(value.to_string())
}

fn direct(value: FactValue) -> Box<ComparableValue> {
    Box::new(ComparableValue::Direct(value))
}

fn by_symbol(symbol: &Symbol) -> Box<ComparableValue> {
    Box::new(ComparableValue::Symbol(symbol.clone()))
}

fn by_name(name: &str) -> Box<ComparableValue> {
    Box::new(ComparableValue::SymbolName(name.to_string()))
}

fn atom(symbol: &Symbol, value: FactValue) -> LogicalOperator {
    LogicalOperator::AtomicFact(Fact::new(symbol.clone(), value))
}

fn not(premise: LogicalOperator) -> LogicalOperator {
    LogicalOperator::Not(Box::new(premise))
}

/// Weather is "Sunny", Temperature is 25, Level is 0.5, Mixed is first a
/// boolean and then 5; Humidity is in the table without a fact.
fn engine() -> (SymbolicReasoningEngine, Symbol, Symbol, Symbol) {
    let mut engine = SymbolicReasoningEngine::new();
    let weather = engine.define_symbol("Weather", "String").unwrap();
    let temperature = engine.define_symbol("Temperature", "Integer").unwrap();
    let level = engine.define_symbol("Level", "Float").unwrap();
    let mixed = engine.define_symbol("Mixed", "Integer").unwrap();
    engine.define_symbol("Humidity", "Integer").unwrap();
    engine.assert_fact(weather.clone(), text("Sunny"));
    engine.assert_fact(temperature.clone(), FactValue::Integer(25));
    engine.assert_fact(level, float(0.5));
    engine.assert_fact(mixed.clone(), FactValue::Boolean(true));
    engine.assert_fact(mixed.clone(), FactValue::Integer(5));
    engine.assert_fact(temperature.clone(), FactValue::Integer(99));
    (engine, weather, temperature, mixed)
}

fn is_true() -> LogicalOperator {
    atom(&Symbol::new("Weather", "String"), text("Sunny"))
}

fn is_false() -> LogicalOperator {
    atom(&Symbol::new("Weather", "String"), text("Rainy"))
}

fn fails() -> LogicalOperator {
    LogicalOperator::GreaterThan(direct(text("Invalid")), direct(FactValue::Integer(0)))
}

fn fails_otherwise() -> LogicalOperator {
    LogicalOperator::LessThan(by_name("Nowhere"), direct(FactValue::Integer(0)))
}

#[test]
fn direct_operands_resolve_to_their_numbers() {
    let (engine, _, _, _) = engine();
    let bits = |value: ComparableValue| engine.resolve_comparable_value(&value).map(Double::to_bits);
    assert_eq!(bits(ComparableValue::Direct(FactValue::Integer(20))), Ok(20.0f64.to_bits()));
    assert_eq!(bits(ComparableValue::Direct(FactValue::Integer(-3))), Ok((-3.0f64).to_bits()));
    assert_eq!(bits(ComparableValue::Direct(FactValue::Integer(0))), Ok(0));
    assert_eq!(bits(ComparableValue::Direct(float(20.5))), Ok(20.5f64.to_bits()));
    assert_eq!(bits(ComparableValue::Direct(float(-0.0))), Ok((-0.0f64).to_bits()));
    assert_eq!(bits(ComparableValue::Direct(float(f64::NAN))), Ok(f64::NAN.to_bits()));
    assert_eq!(bits(ComparableValue::Direct(text("20"))), Err(EngineError::UnsupportedValueType));
    assert_eq!(bits(ComparableValue::Direct(FactValue::Boolean(true))), Err(EngineError::UnsupportedValueType));
}

#[test]
fn symbols_resolve_through_their_first_fact() {
    let (engine, weather, temperature, mixed) = engine();
    let bits = |value: ComparableValue| engine.resolve_comparable_value(&value).map(Double::to_bits);
    assert_eq!(bits(ComparableValue::Symbol(temperature)), Ok(25.0f64.to_bits()));
    assert_eq!(bits(ComparableValue::Symbol(Symbol::new("Level", "Float"))), Ok(0.5f64.to_bits()));
    assert_eq!(bits(ComparableValue::Symbol(weather)), Err(EngineError::UnsupportedValueType));
    // the first fact about the symbol decides, also where a later one holds a number
    assert_eq!(bits(ComparableValue::Symbol(mixed)), Err(EngineError::UnsupportedValueType));
    // a symbol of the table of which no fact is known
    assert_eq!(bits(ComparableValue::Symbol(Symbol::new("Humidity", "Integer"))), Err(EngineError::SymbolNotFound));
    // a symbol that differs by its type tag is another symbol
    assert_eq!(bits(ComparableValue::Symbol(Symbol::new("Temperature", "Float"))), Err(EngineError::SymbolNotFound));
}

#[test]
fn names_resolve_through_the_symbol_table() {
    let (mut engine, _, _, _) = engine();
    // a fact about a symbol that the table lacks
    engine.assert_fact(Symbol::new("Stray", "Integer"), FactValue::Integer(7));
    let bits = |value: ComparableValue| engine.resolve_comparable_value(&value).map(Double::to_bits);
    assert_eq!(bits(ComparableValue::SymbolName("Temperature".to_string())), Ok(25.0f64.to_bits()));
    assert_eq!(bits(ComparableValue::SymbolName("Level".to_string())), Ok(0.5f64.to_bits()));
    assert_eq!(bits(ComparableValue::SymbolName("Weather".to_string())), Err(EngineError::UnsupportedValueType));
    assert_eq!(bits(ComparableValue::SymbolName("Mixed".to_string())), Err(EngineError::UnsupportedValueType));
    assert_eq!(bits(ComparableValue::SymbolName("Humidity".to_string())), Err(EngineError::SymbolNotFound));
    assert_eq!(bits(ComparableValue::SymbolName("InvalidSymbol".to_string())), Err(EngineError::SymbolNotFound));
    assert_eq!(bits(ComparableValue::SymbolName("Stray".to_string())), Err(EngineError::SymbolNotFound));
    assert_eq!(bits(ComparableValue::Symbol(Symbol::new("Stray", "Integer"))), Ok(7.0f64.to_bits()));
}

#[test]
fn names_are_not_looked_up_among_the_variables() {
    let (mut engine, _, _, _) = engine();
    engine.assert_variable("Pressure".to_string(), FactValue::Integer(1000));
    assert_eq!(
        engine.resolve_comparable_value(&ComparableValue::SymbolName("Pressure".to_string())).map(Double::to_bits),
        Err(EngineError::SymbolNotFound)
    );
}

#[test]
fn operands_are_compared_as_numbers() {
    let (engine, _, temperature, _) = engine();
    let left = ComparableValue::Symbol(temperature);
    let compare = |right: FactValue, comparison: Comparison| {
        engine.compare_values(&left, &ComparableValue::Direct(right), comparison)
    };
    assert_eq!(compare(FactValue::Integer(20), Comparison::GreaterThan), Ok(true));
    assert_eq!(compare(FactValue::Integer(20), Comparison::LessThan), Ok(false));
    assert_eq!(compare(FactValue::Integer(20), Comparison::EqualTo), Ok(false));
    assert_eq!(compare(FactValue::Integer(20), Comparison::NotEqualTo), Ok(true));
    assert_eq!(compare(FactValue::Integer(20), Comparison::GreaterThanOrEqualTo), Ok(true));
    assert_eq!(compare(FactValue::Integer(20), Comparison::LessThanOrEqualTo), Ok(false));
    assert_eq!(compare(FactValue::Integer(25), Comparison::GreaterThan), Ok(false));
    assert_eq!(compare(FactValue::Integer(25), Comparison::EqualTo), Ok(true));
    assert_eq!(compare(FactValue::Integer(25), Comparison::GreaterThanOrEqualTo), Ok(true));
    assert_eq!(compare(FactValue::Integer(25), Comparison::LessThanOrEqualTo), Ok(true));
    // an integer and a binary64 number are compared as numbers
    assert_eq!(compare(float(25.0), Comparison::EqualTo), Ok(true));
    assert_eq!(compare(float(25.5), Comparison::LessThan), Ok(true));
    assert_eq!(compare(float(24.999), Comparison::GreaterThan), Ok(true));
    assert_eq!(compare(float(f64::INFINITY), Comparison::LessThan), Ok(true));
    assert_eq!(compare(float(f64::NEG_INFINITY), Comparison::GreaterThan), Ok(true));
    // what is not a number is only unequal
    assert_eq!(compare(float(f64::NAN), Comparison::GreaterThan), Ok(false));
    assert_eq!(compare(float(f64::NAN), Comparison::LessThan), Ok(false));
    assert_eq!(compare(float(f64::NAN), Comparison::EqualTo), Ok(false));
    assert_eq!(compare(float(f64::NAN), Comparison::GreaterThanOrEqualTo), Ok(false));
    assert_eq!(compare(float(f64::NAN), Comparison::LessThanOrEqualTo), Ok(false));
    assert_eq!(compare(float(f64::NAN), Comparison::NotEqualTo), Ok(true));
}

#[test]
fn the_left_operand_fails_first() {
    let (engine, _, _, _) = engine();
    let unsupported = ComparableValue::Direct(text("Invalid"));
    let missing = ComparableValue::SymbolName("Nowhere".to_string());
    let number = ComparableValue::Direct(FactValue::Integer(1));
    assert_eq!(
        engine.compare_values(&unsupported, &missing, Comparison::EqualTo),
        Err(EngineError::UnsupportedValueType)
    );
    assert_eq!(engine.compare_values(&missing, &unsupported, Comparison::EqualTo), Err(EngineError::SymbolNotFound));
    assert_eq!(engine.compare_values(&number, &missing, Comparison::NotEqualTo), Err(EngineError::SymbolNotFound));
    assert_eq!(
        engine.compare_values(&unsupported, &number, Comparison::NotEqualTo),
        Err(EngineError::UnsupportedValueType)
    );
}

#[test]
fn facts_of_a_premise_are_looked_up() {
    let (engine, weather, temperature, mixed) = engine();
    assert_eq!(engine.is_premise_true(&atom(&weather, text("Sunny"))), Ok(true));
    assert_eq!(engine.is_premise_true(&atom(&weather, text("Rainy"))), Ok(false));
    // not only the first fact about a symbol counts
    assert_eq!(engine.is_premise_true(&atom(&temperature, FactValue::Integer(99))), Ok(true));
    assert_eq!(engine.is_premise_true(&atom(&mixed, FactValue::Integer(5))), Ok(true));
    assert_eq!(engine.is_premise_true(&atom(&temperature, FactValue::Integer(26))), Ok(false));
    assert_eq!(engine.is_premise_true(&atom(&temperature, float(25.0))), Ok(false));
    assert_eq!(engine.is_premise_true(&atom(&Symbol::new("Humidity", "Integer"), FactValue::Integer(1))), Ok(false));
}

#[test]
fn comparisons_of_a_premise_are_evaluated() {
    let (engine, _, temperature, _) = engine();
    let twenty = || direct(FactValue::Integer(20));
    let t = || by_symbol(&temperature);
    assert_eq!(engine.is_premise_true(&LogicalOperator::GreaterThan(t(), twenty())), Ok(true));
    assert_eq!(engine.is_premise_true(&LogicalOperator::LessThan(t(), twenty())), Ok(false));
    assert_eq!(engine.is_premise_true(&LogicalOperator::EqualTo(t(), twenty())), Ok(false));
    assert_eq!(engine.is_premise_true(&LogicalOperator::NotEqualTo(t(), twenty())), Ok(true));
    assert_eq!(engine.is_premise_true(&LogicalOperator::GreaterThanOrEqualTo(t(), twenty())), Ok(true));
    assert_eq!(engine.is_premise_true(&LogicalOperator::LessThanOrEqualTo(t(), twenty())), Ok(false));
    assert_eq!(engine.is_premise_true(&LogicalOperator::LessThan(twenty(), t())), Ok(true));
    assert_eq!(engine.is_premise_true(&LogicalOperator::EqualTo(by_name("Temperature"), t())), Ok(true));
    assert_eq!(engine.is_premise_true(&LogicalOperator::LessThan(by_name("Level"), direct(float(0.75)))), Ok(true));
    assert_eq!(engine.is_premise_true(&fails()), Err(EngineError::UnsupportedValueType));
    assert_eq!(engine.is_premise_true(&fails_otherwise()), Err(EngineError::SymbolNotFound));
}

#[test]
fn connectives_are_classical() {
    let (engine, _, _, _) = engine();
    let eval = |premise: LogicalOperator| engine.is_premise_true(&premise);
    assert_eq!(eval(LogicalOperator::And(vec![])), Ok(true));
    assert_eq!(eval(LogicalOperator::Or(vec![])), Ok(false));
    assert_eq!(eval(LogicalOperator::And(vec![is_true()])), Ok(true));
    assert_eq!(eval(LogicalOperator::And(vec![is_true(), is_true(), is_true()])), Ok(true));
    assert_eq!(eval(LogicalOperator::And(vec![is_true(), is_false(), is_true()])), Ok(false));
    assert_eq!(eval(LogicalOperator::Or(vec![is_false()])), Ok(false));
    assert_eq!(eval(LogicalOperator::Or(vec![is_false(), is_false(), is_true()])), Ok(true));
    assert_eq!(eval(LogicalOperator::Or(vec![is_false(), is_false()])), Ok(false));
    assert_eq!(eval(not(is_true())), Ok(false));
    assert_eq!(eval(not(is_false())), Ok(true));
    assert_eq!(eval(not(not(is_true()))), Ok(true));
    assert_eq!(
        eval(LogicalOperator::And(vec![
            LogicalOperator::Or(vec![is_false(), not(is_false())]),
            not(LogicalOperator::And(vec![is_true(), is_false()])),
        ])),
        Ok(true)
    );
}

#[test]
fn children_are_evaluated_from_the_left_until_one_decides() {
    let (engine, _, _, _) = engine();
    let eval = |premise: LogicalOperator| engine.is_premise_true(&premise);
    // a conjunction stops at its first child that is not true
    assert_eq!(eval(LogicalOperator::And(vec![is_false(), fails()])), Ok(false));
    assert_eq!(eval(LogicalOperator::And(vec![is_true(), is_false(), fails()])), Ok(false));
    assert_eq!(eval(LogicalOperator::And(vec![fails(), is_false()])), Err(EngineError::UnsupportedValueType));
    assert_eq!(eval(LogicalOperator::And(vec![is_true(), fails()])), Err(EngineError::UnsupportedValueType));
    assert_eq!(
        eval(LogicalOperator::And(vec![is_true(), fails_otherwise(), fails()])),
        Err(EngineError::SymbolNotFound)
    );
    // a disjunction stops at its first child that is not false
    assert_eq!(eval(LogicalOperator::Or(vec![is_true(), fails()])), Ok(true));
    assert_eq!(eval(LogicalOperator::Or(vec![is_false(), is_true(), fails()])), Ok(true));
    assert_eq!(eval(LogicalOperator::Or(vec![fails(), is_true()])), Err(EngineError::UnsupportedValueType));
    assert_eq!(eval(LogicalOperator::Or(vec![is_false(), fails()])), Err(EngineError::UnsupportedValueType));
    assert_eq!(
        eval(LogicalOperator::Or(vec![is_false(), fails_otherwise(), fails()])),
        Err(EngineError::SymbolNotFound)
    );
    // a negation fails as its child does
    assert_eq!(eval(not(fails())), Err(EngineError::UnsupportedValueType));
    assert_eq!(eval(not(LogicalOperator::Or(vec![is_true(), fails()]))), Ok(false));
}

#[test]
fn a_negated_conjunction_is_the_disjunction_of_the_negations() {
    let (engine, _, _, _) = engine();
    let cases: [fn() -> LogicalOperator; 4] = [is_true, is_false, fails, fails_otherwise];
    for a in cases {
        for b in cases {
            let left = not(LogicalOperator::And(vec![a(), b()]));
            let right = LogicalOperator::Or(vec![not(a()), not(b())]);
            assert_eq!(engine.is_premise_true(&left), engine.is_premise_true(&right));
            let left = not(LogicalOperator::Or(vec![a(), b()]));
            let right = LogicalOperator::And(vec![not(a()), not(b())]);
            assert_eq!(engine.is_premise_true(&left), engine.is_premise_true(&right));
        }
    }
    assert_eq!(engine.is_premise_true(&not(LogicalOperator::And(vec![is_true(), is_false()]))), Ok(true));
    assert_eq!(engine.is_premise_true(&LogicalOperator::Or(vec![not(is_true()), not(is_false())])), Ok(true));
    assert_eq!(engine.is_premise_true(&not(LogicalOperator::And(vec![is_true(), is_true()]))), Ok(false));
    assert_eq!(engine.is_premise_true(&LogicalOperator::Or(vec![not(is_true()), not(is_true())])), Ok(false));
}

#[test]
fn of_two_unequal_numbers_one_is_the_greater() {
    let (engine, _, temperature, _) = engine();
    let operands = [
        FactValue::Integer(20),
        FactValue::Integer(25),
        FactValue::Integer(-25),
        float(25.0),
        float(25.000001),
        float(0.0),
        float(-0.0),
        float(f64::INFINITY),
        float(f64::NEG_INFINITY),
    ];
    for a in &operands {
        for b in &operands {
            let eval = |premise: LogicalOperator| engine.is_premise_true(&premise).unwrap();
            let unequal = eval(LogicalOperator::NotEqualTo(direct(a.clone()), direct(b.clone())));
            let greater = eval(LogicalOperator::GreaterThan(direct(a.clone()), direct(b.clone())));
            let less = eval(LogicalOperator::LessThan(direct(a.clone()), direct(b.clone())));
            if unequal {
                assert!(greater != less, "{a:?} {b:?}");
            } else {
                assert!(!greater && !less, "{a:?} {b:?}");
            }
        }
    }
    let greater = LogicalOperator::GreaterThan(by_symbol(&temperature), direct(float(24.5)));
    let less = LogicalOperator::LessThan(by_symbol(&temperature), direct(float(24.5)));
    assert_eq!(engine.is_premise_true(&greater), Ok(true));
    assert_eq!(engine.is_premise_true(&less), Ok(false));
}

#[test]
fn an_evaluation_hands_back_the_bindings_that_came_in() {
    let (engine, _, temperature, _) = engine();
    let mut bindings = Bindings::new();
    bindings.insert("x".to_string(), FactValue::Integer(1));
    let mut visited = Vec::new();
    let premises = vec![
        is_true(),
        not(is_false()),
        LogicalOperator::And(vec![is_true(), not(is_false())]),
        LogicalOperator::And(vec![]),
        LogicalOperator::Or(vec![is_false(), is_true()]),
        LogicalOperator::GreaterThan(by_symbol(&temperature), direct(FactValue::Integer(20))),
        LogicalOperator::LessThanOrEqualTo(by_symbol(&temperature), direct(FactValue::Integer(25))),
    ];
    for premise in &premises {
        for backward in [false, true] {
            let found = engine.evaluate_logical_expression(premise, &bindings, backward, &mut visited).unwrap().unwrap();
            assert_eq!(found.get("x"), Some(&FactValue::Integer(1)));
            assert_eq!(found.get("y"), None);
            assert!(visited.is_empty());
        }
    }
    let falsities = vec![
        is_false(),
        not(is_true()),
        LogicalOperator::And(vec![is_true(), is_false()]),
        LogicalOperator::Or(vec![]),
        LogicalOperator::EqualTo(by_symbol(&temperature), direct(FactValue::Integer(20))),
    ];
    for premise in &falsities {
        assert!(engine.evaluate_logical_expression(premise, &bindings, false, &mut visited).unwrap().is_none());
        assert!(visited.is_empty());
    }
    assert_eq!(
        engine.evaluate_logical_expression(&fails(), &bindings, false, &mut visited).map(|found| found.is_some()),
        Err(EngineError::UnsupportedValueType)
    );
}

#[test]
fn without_backward_chaining_the_rules_are_not_searched() {
    let (mut engine, weather, _, _) = engine();
    let activity = engine.define_symbol("Activity", "String").unwrap();
    engine.define_rule(atom(&weather, text("Sunny")), Fact::new(activity.clone(), text("Outdoor")));
    let premise = atom(&activity, text("Outdoor"));
    let bindings = Bindings::new();
    let mut visited = vec![Fact::new(weather.clone(), text("Kept"))];
    assert!(engine.evaluate_logical_expression(&premise, &bindings, false, &mut visited).unwrap().is_none());
    assert_eq!(visited, vec![Fact::new(weather.clone(), text("Kept"))]);
    assert_eq!(engine.is_premise_true(&premise), Ok(false));
    assert!(engine.match_rule(&premise).unwrap().is_none());
    // with it they are
    let mut visited = Vec::new();
    assert!(engine.evaluate_logical_expression(&premise, &bindings, true, &mut visited).unwrap().is_some());
    assert_eq!(visited, vec![Fact::new(activity, text("Outdoor"))]);
}

#[test]
fn a_matched_rule_gives_the_bindings_of_the_engine() {
    let (mut engine, _, _, _) = engine();
    engine.assert_variable("x".to_string(), FactValue::Integer(1));
    engine.assert_variable("y".to_string(), text("two"));
    let found = engine.match_rule(&is_true()).unwrap().unwrap();
    assert_eq!(found.get("x"), Some(&FactValue::Integer(1)));
    assert_eq!(found.get("y"), Some(&text("two")));
    assert_eq!(found.get("z"), None);
    assert!(engine.match_rule(&is_false()).unwrap().is_none());
    assert_eq!(engine.match_rule(&fails()).map(|found| found.is_some()), Err(EngineError::UnsupportedValueType));
    assert_eq!(engine.match_rule(&LogicalOperator::And(vec![is_false(), fails()])).map(|f| f.is_some()), Ok(false));
}

#[test]
fn premises_copy() {
    let (engine, _, temperature, _) = engine();
    let premise = LogicalOperator::And(vec![
        LogicalOperator::Or(vec![is_false(), not(is_false())]),
        LogicalOperator::GreaterThan(by_symbol(&temperature), direct(FactValue::Integer(20))),
        LogicalOperator::NotEqualTo(by_name("Level"), direct(float(1.0))),
    ]);
    let copy = premise.clone();
    assert_eq!(format!("{copy:?}"), format!("{premise:?}"));
    assert_eq!(engine.is_premise_true(&copy), Ok(true));
}

#[test]
fn operands_are_equal_within_a_variant_only() {
    let t = Symbol::new("Temperature", "Integer");
    assert_eq!(ComparableValue::Direct(FactValue::Integer(1)), ComparableValue::Direct(FactValue::Integer(1)));
    assert_ne!(ComparableValue::Direct(FactValue::Integer(1)), ComparableValue::Direct(FactValue::Integer(2)));
    assert_ne!(ComparableValue::Direct(FactValue::Integer(1)), ComparableValue::Direct(float(1.0)));
    assert_ne!(ComparableValue::Direct(float(f64::NAN)), ComparableValue::Direct(float(f64::NAN)));
    assert_eq!(ComparableValue::Symbol(t.clone()), ComparableValue::Symbol(t.clone()));
    assert_ne!(ComparableValue::Symbol(t.clone()), ComparableValue::Symbol(Symbol::new("Temperature", "Float")));
    assert_eq!(
        ComparableValue::SymbolName("Temperature".to_string()),
        ComparableValue::SymbolName("Temperature".to_string())
    );
    assert_ne!(ComparableValue::SymbolName("Temperature".to_string()), ComparableValue::SymbolName("T".to_string()));
    assert_ne!(ComparableValue::Symbol(t.clone()), ComparableValue::SymbolName("Temperature".to_string()));
    assert_ne!(ComparableValue::Direct(text("Temperature")), ComparableValue::SymbolName("Temperature".to_string()));
    assert_eq!(ComparableValue::Symbol(t.clone()).clone(), ComparableValue::Symbol(t));
}
