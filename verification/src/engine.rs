//! The engine: a knowledge base and the operations that fill and read it.

use crate::bindings::Bindings;
use crate::double::Double;
use crate::error::EngineError;
use crate::expression::{rule_views, LogicalOperator, Rule, RuleView};
use crate::fact::{contains_fact, fact_views, facts_equal, Fact, FactView};
use crate::knowledge::{first_fact_about, lemma_first_fact_about, KnowledgeBase};
use crate::symbol::{Symbol, SymbolView};
use crate::value::{numeric_value, FactValue};
use vstd::hash_map::StringHashMap;
use vstd::prelude::*;

verus! {

/// A rule-based inference engine over typed symbols, facts and rules.
pub struct SymbolicReasoningEngine {
    symbols: StringHashMap<Symbol>,
    facts: Vec<Fact>,
    rules: Vec<Rule>,
    variable_bindings: Bindings,
    debug: bool,
}

impl View for SymbolicReasoningEngine {
    type V = KnowledgeBase;

    closed spec fn view(&self) -> KnowledgeBase {
        KnowledgeBase {
            symbols: self.symbols@.map_values(|symbol: Symbol| symbol@),
            facts: fact_views(self.facts@),
            rules: rule_views(self.rules@),
            bindings: self.variable_bindings@,
            debug: self.debug,
        }
    }
}

impl SymbolicReasoningEngine {
    /// An engine that knows nothing, with the debug flag off.
    pub fn new() -> (engine: Self)
        ensures
            engine@ == KnowledgeBase::empty(),
            engine@.wf(),
    {
        let engine = Self {
            symbols: StringHashMap::new(),
            facts: Vec::new(),
            rules: Vec::new(),
            variable_bindings: Bindings::new(),
            debug: false,
        };
        assert(engine@.symbols =~= Map::empty());
        assert(engine@.facts =~= Seq::empty());
        assert(engine@.rules =~= Seq::empty());
        engine
    }

    /// Turns the debug flag on.
    pub fn enable_debug(&mut self)
        ensures
            final(self)@ == (KnowledgeBase { debug: true, ..old(self)@ }),
            old(self)@.wf() ==> final(self)@.wf(),
    {
        self.debug = true;
    }

    /// Whether the debug flag is on.
    pub fn debug_enabled(&self) -> (enabled: bool)
        ensures
            enabled == self@.debug,
    {
        self.debug
    }

    /// Enters a new symbol into the symbol table and hands it out. A name that
    /// the table has already is refused, and the table stays as it is.
    pub fn define_symbol(&mut self, name: &str, symbol_type: &str) -> (result: Result<Symbol, EngineError>)
        ensures
            match result {
                Ok(symbol) => {
                    &&& !old(self)@.symbols.contains_key(name@)
                    &&& symbol@ == (SymbolView { name: name@, symbol_type: symbol_type@ })
                    &&& final(self)@ == (KnowledgeBase {
                        symbols: old(self)@.symbols.insert(name@, symbol@),
                        ..old(self)@
                    })
                },
                Err(error) => {
                    &&& old(self)@.symbols.contains_key(name@)
                    &&& error == EngineError::SymbolAlreadyDefined
                    &&& final(self)@ == old(self)@
                },
            },
            old(self)@.wf() ==> final(self)@.wf(),
    {
        let symbol = Symbol { name: name.to_string(), symbol_type: symbol_type.to_string() };
        if self.find_symbol(name) {
            return Err(EngineError::SymbolAlreadyDefined);
        }
        self.symbols.insert(name.to_string(), symbol.clone());
        assert(self@.symbols =~= old(self)@.symbols.insert(name@, symbol@));
        Ok(symbol)
    }

    /// Whether the symbol table has a symbol of that name.
    pub fn find_symbol(&mut self, name: &str) -> (found: bool)
        ensures
            found == old(self)@.symbols.contains_key(name@),
            *final(self) == *old(self),
    {
        self.symbols.contains_key(name)
    }

    /// The symbol that the symbol table has under `name`.
    pub fn symbol_named(&self, name: &str) -> (symbol: Option<&Symbol>)
        ensures
            match symbol {
                Some(found) => self@.symbols.contains_key(name@) && found@ == self@.symbols[name@],
                None => !self@.symbols.contains_key(name@),
            },
    {
        self.symbols.get(name)
    }

    /// Binds `value` to the variable `var_name`; the last write wins.
    pub fn assert_variable(&mut self, var_name: String, value: FactValue)
        ensures
            final(self)@ == (KnowledgeBase {
                bindings: old(self)@.bindings.insert(var_name@, value@),
                ..old(self)@
            }),
            old(self)@.wf() ==> final(self)@.wf(),
    {
        self.variable_bindings.insert(var_name, value);
        assert(self@.symbols == old(self)@.symbols);
    }

    /// Appends the fact that `symbol` has `value`, whether or not it is known
    /// already.
    pub fn assert_fact(&mut self, symbol: Symbol, value: FactValue)
        ensures
            final(self)@ == old(self)@.with_facts(
                old(self)@.facts.push(FactView { symbol: symbol@, value: value@ }),
            ),
            old(self)@.wf() ==> final(self)@.wf(),
    {
        self.append_fact(Fact { symbol, value });
    }

    /// Appends `fact` to the known facts.
    pub(crate) fn append_fact(&mut self, fact: Fact)
        ensures
            final(self)@ == old(self)@.with_facts(old(self)@.facts.push(fact@)),
    {
        self.facts.push(fact);
        assert(fact_views(self.facts@) == fact_views(old(self).facts@).push(fact@));
    }

    /// Writes every binding of `found` into the variable bindings.
    pub(crate) fn merge_bindings(&mut self, found: &Bindings)
        ensures
            final(self)@ == (KnowledgeBase {
                bindings: old(self)@.bindings.union_prefer_right(found@),
                ..old(self)@
            }),
    {
        self.variable_bindings.extend(found);
    }

    /// The value bound to the variable `var_name`.
    pub fn determine_variable_value(&self, var_name: &str) -> (value: Option<&FactValue>)
        ensures
            match value {
                Some(found) => self@.bindings.contains_key(var_name@) && found@ == self@.bindings[var_name@],
                None => !self@.bindings.contains_key(var_name@),
            },
    {
        self.variable_bindings.get(var_name)
    }

    /// Appends the rule that `premise` gives `conclusion`.
    pub fn define_rule(&mut self, premise: LogicalOperator, conclusion: Fact)
        ensures
            final(self)@ == (KnowledgeBase {
                rules: old(self)@.rules.push(RuleView { premise: premise@, conclusion: conclusion@ }),
                ..old(self)@
            }),
            old(self)@.wf() ==> final(self)@.wf(),
    {
        let rule = Rule { premise, conclusion };
        self.rules.push(rule);
        assert(rule_views(self.rules@) == rule_views(old(self).rules@).push(rule@));
    }

    /// The known facts, in the order in which they came.
    pub fn facts(&self) -> (facts: &Vec<Fact>)
        ensures
            fact_views(facts@) == self@.facts,
    {
        &self.facts
    }

    /// The rules, in the order in which they were defined.
    pub fn rules(&self) -> (rules: &Vec<Rule>)
        ensures
            rule_views(rules@) == self@.rules,
    {
        &self.rules
    }

    /// The variable bindings.
    pub fn bindings(&self) -> (bindings: &Bindings)
        ensures
            bindings@ == self@.bindings,
    {
        &self.variable_bindings
    }

    /// The first known fact about `symbol`.
    pub fn get_fact_from_symbol(&self, symbol: Symbol) -> (found: Option<&Fact>)
        ensures
            match found {
                Some(fact) => fact@.symbol == symbol@ && first_fact_about(self@.facts, symbol@) == Some(fact@),
                None => first_fact_about(self@.facts, symbol@) is None,
            },
    {
        let mut i: usize = 0;
        while i < self.facts.len()
            invariant
                i <= self.facts.len(),
                forall|j: int| 0 <= j < i ==> (#[trigger] fact_views(self.facts@)[j]).symbol != symbol@,
            decreases self.facts.len() - i,
        {
            if self.facts[i].symbol == symbol {
                proof {
                    lemma_first_fact_about(fact_views(self.facts@), symbol@, i as int);
                }
                return Some(&self.facts[i]);
            }
            i += 1;
        }
        proof {
            lemma_first_fact_about(fact_views(self.facts@), symbol@, i as int);
        }
        None
    }

    /// The number that the first known fact about the symbol of `fact` holds:
    /// none where no fact about that symbol is known, or where the first one
    /// holds a boolean or a text.
    pub fn get_fact_value(&self, fact: &Fact) -> (number: Option<Double>)
        ensures
            number == match first_fact_about(self@.facts, fact@.symbol) {
                Some(known) => numeric_value(known.value),
                None => None,
            },
    {
        match self.get_fact_from_symbol(fact.symbol.clone()) {
            Some(known) => known.value.as_number(),
            None => None,
        }
    }

    /// A copy of the conclusion of a rule, to be entered among the facts.
    pub fn apply_rule_conclusion(&self, conclusion: &Fact) -> (fact: Fact)
        ensures
            fact@ == conclusion@,
    {
        conclusion.clone()
    }

    /// The value that `bindings` has for the variable `var_name`.
    pub fn resolve_variable_value(&self, var_name: &str, bindings: &Bindings) -> (value: Option<FactValue>)
        ensures
            match value {
                Some(found) => bindings@.contains_key(var_name@) && found@ == bindings@[var_name@],
                None => !bindings@.contains_key(var_name@),
            },
    {
        match bindings.get(var_name) {
            Some(found) => Some(found.clone()),
            None => None,
        }
    }

    /// Whether the fact `fact` of a premise is the known fact `known_fact`:
    /// the symbols are the same, and the values are of one variant and equal.
    pub fn match_fact(&self, fact: &Fact, known_fact: &Fact) -> (matched: bool)
        ensures
            matched == facts_equal(fact@, known_fact@),
    {
        if fact.symbol != known_fact.symbol {
            return false;
        }
        match (&fact.value, &known_fact.value) {
            (FactValue::Integer(l), FactValue::Integer(r)) => *l == *r,
            (FactValue::Float(l), FactValue::Float(r)) => *l == *r,
            (FactValue::Boolean(l), FactValue::Boolean(r)) => *l == *r,
            (FactValue::Text(l), FactValue::Text(r)) => *l == *r,
            _ => false,
        }
    }

    /// Whether a goal stands among those that a search is already after.
    pub fn detect_cycle(&self, current: &Fact, visited: &[Fact]) -> (cycle: bool)
        ensures
            cycle == contains_fact(fact_views(visited@), current@),
    {
        current.is_in(visited)
    }
}

} // verus!
