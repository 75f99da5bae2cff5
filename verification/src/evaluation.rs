//! What a premise evaluates to against the known facts.
//!
//! A premise is true, false, or fails: a comparison fails where one of its
//! operands has no number. Children are evaluated from left to right. A
//! conjunction stops at its first child that is not true, a disjunction at its
//! first child that is not false, and whatever that child gave, a truth value
//! or a failure, is then the result.

use crate::double::Double;
use crate::engine::SymbolicReasoningEngine;
use crate::error::EngineError;
use crate::expression::{ComparableValue, ComparableValueView, Comparison, LogicalOperator, LogicalOperatorView};
use crate::fact::{contains_fact, FactView};
use crate::knowledge::{first_fact_about, KnowledgeBase};
use crate::symbol::SymbolView;
use crate::value::numeric_value;
use vstd::prelude::*;

verus! {

/// The number that the first of `facts` about `symbol` holds.
pub open spec fn resolve_symbol(facts: Seq<FactView>, symbol: SymbolView) -> Result<Double, EngineError> {
    match first_fact_about(facts, symbol) {
        None => Err(EngineError::SymbolNotFound),
        Some(fact) => match numeric_value(fact.value) {
            Some(number) => Ok(number),
            None => Err(EngineError::UnsupportedValueType),
        },
    }
}

/// The number that an operand of a comparison stands for.
pub open spec fn resolve(kb: KnowledgeBase, operand: ComparableValueView) -> Result<Double, EngineError> {
    match operand {
        ComparableValueView::Direct(value) => match numeric_value(value) {
            Some(number) => Ok(number),
            None => Err(EngineError::UnsupportedValueType),
        },
        ComparableValueView::Symbol(symbol) => resolve_symbol(kb.facts, symbol),
        ComparableValueView::SymbolName(name) => if kb.symbols.contains_key(name) {
            resolve_symbol(kb.facts, kb.symbols[name])
        } else {
            Err(EngineError::SymbolNotFound)
        },
    }
}

/// Whether `relation` holds between two operands. The left operand is resolved
/// first: where both fail, the failure is that of the left one.
pub open spec fn compare(
    kb: KnowledgeBase,
    relation: Comparison,
    left: ComparableValueView,
    right: ComparableValueView,
) -> Result<bool, EngineError> {
    match resolve(kb, left) {
        Err(error) => Err(error),
        Ok(l) => match resolve(kb, right) {
            Err(error) => Err(error),
            Ok(r) => Ok(relation.holds(l, r)),
        },
    }
}

/// What `premise` evaluates to.
pub open spec fn premise_holds(kb: KnowledgeBase, premise: LogicalOperatorView) -> Result<bool, EngineError>
    decreases premise, 0nat,
{
    match premise {
        LogicalOperatorView::And(children) => all_hold(kb, children, 0),
        LogicalOperatorView::Or(children) => any_holds(kb, children, 0),
        LogicalOperatorView::Not(child) => match premise_holds(kb, *child) {
            Ok(truth) => Ok(!truth),
            Err(error) => Err(error),
        },
        LogicalOperatorView::AtomicFact(fact) => Ok(contains_fact(kb.facts, fact)),
        LogicalOperatorView::Compare(relation, left, right) => compare(kb, relation, left, right),
    }
}

/// What the conjunction of `children[from..]` evaluates to.
pub open spec fn all_hold(kb: KnowledgeBase, children: Seq<LogicalOperatorView>, from: nat) -> Result<
    bool,
    EngineError,
>
    decreases children, children.len() - from,
{
    if from >= children.len() {
        Ok(true)
    } else {
        match premise_holds(kb, children[from as int]) {
            Ok(true) => all_hold(kb, children, from + 1),
            other => other,
        }
    }
}

/// What the disjunction of `children[from..]` evaluates to.
pub open spec fn any_holds(kb: KnowledgeBase, children: Seq<LogicalOperatorView>, from: nat) -> Result<
    bool,
    EngineError,
>
    decreases children, children.len() - from,
{
    if from >= children.len() {
        Ok(false)
    } else {
        match premise_holds(kb, children[from as int]) {
            Ok(false) => any_holds(kb, children, from + 1),
            other => other,
        }
    }
}

impl SymbolicReasoningEngine {
    /// Resolves an operand of a comparison to its number.
    pub fn resolve_comparable_value(&self, value: &ComparableValue) -> (result: Result<Double, EngineError>)
        ensures
            result == resolve(self@, value@),
    {
        match value {
            ComparableValue::Direct(fact_value) => match fact_value.as_number() {
                Some(number) => Ok(number),
                None => Err(EngineError::UnsupportedValueType),
            },
            ComparableValue::Symbol(symbol) => {
                match self.get_fact_from_symbol(symbol.clone()) {
                    None => Err(EngineError::SymbolNotFound),
                    Some(fact) => match self.get_fact_value(fact) {
                        Some(number) => Ok(number),
                        None => Err(EngineError::UnsupportedValueType),
                    },
                }
            },
            ComparableValue::SymbolName(symbol_name) => {
                match self.symbol_named(symbol_name.as_str()) {
                    None => Err(EngineError::SymbolNotFound),
                    Some(symbol) => match self.get_fact_from_symbol(symbol.clone()) {
                        None => Err(EngineError::SymbolNotFound),
                        Some(fact) => match self.get_fact_value(fact) {
                            Some(number) => Ok(number),
                            None => Err(EngineError::UnsupportedValueType),
                        },
                    },
                }
            },
        }
    }

    /// Resolves two operands and applies `comparison` to their numbers.
    pub fn compare_values(&self, left: &ComparableValue, right: &ComparableValue, comparison: Comparison) -> (result:
        Result<bool, EngineError>)
        ensures
            result == compare(self@, comparison, left@, right@),
    {
        let left_value = match self.resolve_comparable_value(left) {
            Ok(number) => number,
            Err(error) => {
                return Err(error);
            },
        };
        let right_value = match self.resolve_comparable_value(right) {
            Ok(number) => number,
            Err(error) => {
                return Err(error);
            },
        };
        Ok(comparison.apply(left_value, right_value))
    }

    /// Whether a premise is true of the known facts.
    pub fn is_premise_true(&self, expression: &LogicalOperator) -> (result: Result<bool, EngineError>)
        ensures
            result == premise_holds(self@, expression@),
        decreases expression,
    {
        match expression {
            LogicalOperator::And(expressions) => {
                let mut i: usize = 0;
                while i < expressions.len()
                    invariant
                        i <= expressions.len(),
                        expression == LogicalOperator::And(*expressions),
                        premise_holds(self@, expression@) == all_hold(
                            self@,
                            LogicalOperator::views_of(expressions),
                            i as nat,
                        ),
                    decreases expressions.len() - i,
                {
                    match self.is_premise_true(&expressions[i]) {
                        Ok(true) => {},
                        other => {
                            return other;
                        },
                    }
                    i += 1;
                }
                Ok(true)
            },
            LogicalOperator::Or(expressions) => {
                let mut i: usize = 0;
                while i < expressions.len()
                    invariant
                        i <= expressions.len(),
                        expression == LogicalOperator::Or(*expressions),
                        premise_holds(self@, expression@) == any_holds(
                            self@,
                            LogicalOperator::views_of(expressions),
                            i as nat,
                        ),
                    decreases expressions.len() - i,
                {
                    match self.is_premise_true(&expressions[i]) {
                        Ok(false) => {},
                        other => {
                            return other;
                        },
                    }
                    i += 1;
                }
                Ok(false)
            },
            LogicalOperator::Not(expression) => {
                match self.is_premise_true(expression) {
                    Ok(truth) => Ok(!truth),
                    Err(error) => Err(error),
                }
            },
            LogicalOperator::AtomicFact(fact) => Ok(fact.is_in(self.facts().as_slice())),
            LogicalOperator::GreaterThan(left, right) => self.compare_values(left, right, Comparison::GreaterThan),
            LogicalOperator::LessThan(left, right) => self.compare_values(left, right, Comparison::LessThan),
            LogicalOperator::EqualTo(left, right) => self.compare_values(left, right, Comparison::EqualTo),
            LogicalOperator::NotEqualTo(left, right) => self.compare_values(left, right, Comparison::NotEqualTo),
            LogicalOperator::GreaterThanOrEqualTo(left, right) => self.compare_values(
                left,
                right,
                Comparison::GreaterThanOrEqualTo,
            ),
            LogicalOperator::LessThanOrEqualTo(left, right) => self.compare_values(
                left,
                right,
                Comparison::LessThanOrEqualTo,
            ),
        }
    }
}

} // verus!
