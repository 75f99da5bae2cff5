//! Premises and rules: the trees of logical operators that rules are made of.

use crate::double::Double;
use crate::fact::{Fact, FactView};
use crate::symbol::{Symbol, SymbolView};
use crate::value::{values_equal, FactValue, FactValueView};
use vstd::prelude::*;
use vstd::std_specs::cmp::PartialEqSpecImpl;

verus! {

/// An operand of a comparison: a value given directly, or the value of the
/// first known fact about a symbol, the symbol given itself or by its name.
#[derive(Debug)]
pub enum ComparableValue {
    Direct(FactValue),
    Symbol(Symbol),
    SymbolName(String),
}

/// What a `ComparableValue` holds.
pub enum ComparableValueView {
    Direct(FactValueView),
    Symbol(SymbolView),
    SymbolName(Seq<char>),
}

impl View for ComparableValue {
    type V = ComparableValueView;

    open spec fn view(&self) -> ComparableValueView {
        match self {
            ComparableValue::Direct(value) => ComparableValueView::Direct(value@),
            ComparableValue::Symbol(symbol) => ComparableValueView::Symbol(symbol@),
            ComparableValue::SymbolName(name) => ComparableValueView::SymbolName(name@),
        }
    }
}

impl Clone for ComparableValue {
    fn clone(&self) -> (copy: Self)
        ensures
            copy@ == self@,
    {
        match self {
            ComparableValue::Direct(value) => ComparableValue::Direct(value.clone()),
            ComparableValue::Symbol(symbol) => ComparableValue::Symbol(symbol.clone()),
            ComparableValue::SymbolName(name) => ComparableValue::SymbolName(name.clone()),
        }
    }
}

/// Equality of operands: two operands of one variant are equal when what they
/// hold is; operands of different variants never are.
pub open spec fn operands_equal(a: ComparableValueView, b: ComparableValueView) -> bool {
    match (a, b) {
        (ComparableValueView::Direct(x), ComparableValueView::Direct(y)) => values_equal(x, y),
        (ComparableValueView::Symbol(x), ComparableValueView::Symbol(y)) => x == y,
        (ComparableValueView::SymbolName(x), ComparableValueView::SymbolName(y)) => x == y,
        _ => false,
    }
}

impl PartialEq for ComparableValue {
    fn eq(&self, other: &Self) -> (equal: bool) {
        match (self, other) {
            (ComparableValue::Direct(l), ComparableValue::Direct(r)) => *l == *r,
            (ComparableValue::Symbol(l), ComparableValue::Symbol(r)) => *l == *r,
            (ComparableValue::SymbolName(l), ComparableValue::SymbolName(r)) => *l == *r,
            _ => false,
        }
    }
}

impl PartialEqSpecImpl for ComparableValue {
    open spec fn obeys_eq_spec() -> bool {
        true
    }

    open spec fn eq_spec(&self, other: &Self) -> bool {
        operands_equal(self@, other@)
    }
}

/// One of the six relations between two numbers.
#[derive(Clone, Copy, Debug, PartialEq, Eq, Structural)]
pub enum Comparison {
    GreaterThan,
    LessThan,
    EqualTo,
    NotEqualTo,
    GreaterThanOrEqualTo,
    LessThanOrEqualTo,
}

impl Comparison {
    /// Whether the relation holds between `left` and `right`, as IEEE 754 has
    /// it: where either is not a number, only `NotEqualTo` holds.
    pub open spec fn holds(self, left: Double, right: Double) -> bool {
        match self {
            Comparison::GreaterThan => right.precedes(left),
            Comparison::LessThan => left.precedes(right),
            Comparison::EqualTo => left.equals(right),
            Comparison::NotEqualTo => !left.equals(right),
            Comparison::GreaterThanOrEqualTo => right.at_most(left),
            Comparison::LessThanOrEqualTo => left.at_most(right),
        }
    }

    /// Whether the relation holds between two integers.
    pub open spec fn holds_between(self, left: int, right: int) -> bool {
        match self {
            Comparison::GreaterThan => left > right,
            Comparison::LessThan => left < right,
            Comparison::EqualTo => left == right,
            Comparison::NotEqualTo => left != right,
            Comparison::GreaterThanOrEqualTo => left >= right,
            Comparison::LessThanOrEqualTo => left <= right,
        }
    }

    /// Applies the relation to two numbers.
    pub fn apply(self, left: Double, right: Double) -> (result: bool)
        ensures
            result == self.holds(left, right),
    {
        match self {
            Comparison::GreaterThan => left.gt(right),
            Comparison::LessThan => left.lt(right),
            Comparison::EqualTo => left == right,
            Comparison::NotEqualTo => !(left == right),
            Comparison::GreaterThanOrEqualTo => left.ge(right),
            Comparison::LessThanOrEqualTo => left.le(right),
        }
    }
}

/// A premise: conjunction, disjunction and negation over facts and over
/// comparisons of numbers.
#[derive(Debug)]
pub enum LogicalOperator {
    And(Vec<LogicalOperator>),
    Or(Vec<LogicalOperator>),
    Not(Box<LogicalOperator>),
    AtomicFact(Fact),
    GreaterThan(Box<ComparableValue>, Box<ComparableValue>),
    LessThan(Box<ComparableValue>, Box<ComparableValue>),
    EqualTo(Box<ComparableValue>, Box<ComparableValue>),
    NotEqualTo(Box<ComparableValue>, Box<ComparableValue>),
    GreaterThanOrEqualTo(Box<ComparableValue>, Box<ComparableValue>),
    LessThanOrEqualTo(Box<ComparableValue>, Box<ComparableValue>),
}

/// What a `LogicalOperator` holds. The six comparisons are one variant here,
/// told apart by their relation.
pub enum LogicalOperatorView {
    And(Seq<LogicalOperatorView>),
    Or(Seq<LogicalOperatorView>),
    Not(Box<LogicalOperatorView>),
    AtomicFact(FactView),
    Compare(Comparison, ComparableValueView, ComparableValueView),
}

impl LogicalOperator {
    /// What a list of premises holds.
    pub open spec fn views_of(list: &Vec<LogicalOperator>) -> Seq<LogicalOperatorView>
        decreases list,
    {
        Seq::new(
            list.len() as nat,
            |i: int|
                if 0 <= i < list.len() {
                    list[i].model()
                } else {
                    LogicalOperatorView::And(Seq::empty())
                },
        )
    }

    /// What this premise holds.
    pub open spec fn model(&self) -> LogicalOperatorView
        decreases self,
    {
        match self {
            LogicalOperator::And(children) => LogicalOperatorView::And(Self::views_of(children)),
            LogicalOperator::Or(children) => LogicalOperatorView::Or(Self::views_of(children)),
            LogicalOperator::Not(child) => LogicalOperatorView::Not(Box::new(child.model())),
            LogicalOperator::AtomicFact(fact) => LogicalOperatorView::AtomicFact(fact@),
            LogicalOperator::GreaterThan(left, right) => LogicalOperatorView::Compare(
                Comparison::GreaterThan,
                left@,
                right@,
            ),
            LogicalOperator::LessThan(left, right) => LogicalOperatorView::Compare(
                Comparison::LessThan,
                left@,
                right@,
            ),
            LogicalOperator::EqualTo(left, right) => LogicalOperatorView::Compare(
                Comparison::EqualTo,
                left@,
                right@,
            ),
            LogicalOperator::NotEqualTo(left, right) => LogicalOperatorView::Compare(
                Comparison::NotEqualTo,
                left@,
                right@,
            ),
            LogicalOperator::GreaterThanOrEqualTo(left, right) => LogicalOperatorView::Compare(
                Comparison::GreaterThanOrEqualTo,
                left@,
                right@,
            ),
            LogicalOperator::LessThanOrEqualTo(left, right) => LogicalOperatorView::Compare(
                Comparison::LessThanOrEqualTo,
                left@,
                right@,
            ),
        }
    }

    fn clone_all(list: &Vec<LogicalOperator>) -> (copies: Vec<LogicalOperator>)
        ensures
            Self::views_of(&copies) == Self::views_of(list),
        decreases list,
    {
        let mut copies: Vec<LogicalOperator> = Vec::new();
        let mut i: usize = 0;
        while i < list.len()
            invariant
                i <= list.len(),
                copies.len() == i,
                forall|j: int| 0 <= j < i ==> (#[trigger] copies[j]).model() == list[j].model(),
            decreases list.len() - i,
        {
            copies.push(list[i].clone());
            i += 1;
        }
        copies
    }
}

impl View for LogicalOperator {
    type V = LogicalOperatorView;

    open spec fn view(&self) -> LogicalOperatorView {
        self.model()
    }
}

impl Clone for LogicalOperator {
    fn clone(&self) -> (copy: Self)
        ensures
            copy@ == self@,
        decreases self,
    {
        match self {
            LogicalOperator::And(children) => LogicalOperator::And(Self::clone_all(children)),
            LogicalOperator::Or(children) => LogicalOperator::Or(Self::clone_all(children)),
            LogicalOperator::Not(child) => LogicalOperator::Not(Box::new((**child).clone())),
            LogicalOperator::AtomicFact(fact) => LogicalOperator::AtomicFact(fact.clone()),
            LogicalOperator::GreaterThan(left, right) => LogicalOperator::GreaterThan(
                Box::new((**left).clone()),
                Box::new((**right).clone()),
            ),
            LogicalOperator::LessThan(left, right) => LogicalOperator::LessThan(
                Box::new((**left).clone()),
                Box::new((**right).clone()),
            ),
            LogicalOperator::EqualTo(left, right) => LogicalOperator::EqualTo(
                Box::new((**left).clone()),
                Box::new((**right).clone()),
            ),
            LogicalOperator::NotEqualTo(left, right) => LogicalOperator::NotEqualTo(
                Box::new((**left).clone()),
                Box::new((**right).clone()),
            ),
            LogicalOperator::GreaterThanOrEqualTo(left, right) => LogicalOperator::GreaterThanOrEqualTo(
                Box::new((**left).clone()),
                Box::new((**right).clone()),
            ),
            LogicalOperator::LessThanOrEqualTo(left, right) => LogicalOperator::LessThanOrEqualTo(
                Box::new((**left).clone()),
                Box::new((**right).clone()),
            ),
        }
    }
}

/// A rule: where the premise is true, the conclusion is asserted.
#[derive(Debug)]
pub struct Rule {
    pub premise: LogicalOperator,
    pub conclusion: Fact,
}

/// What a `Rule` holds.
pub struct RuleView {
    pub premise: LogicalOperatorView,
    pub conclusion: FactView,
}

impl View for Rule {
    type V = RuleView;

    open spec fn view(&self) -> RuleView {
        RuleView { premise: self.premise@, conclusion: self.conclusion@ }
    }
}

impl Clone for Rule {
    fn clone(&self) -> (copy: Self)
        ensures
            copy@ == self@,
    {
        Rule { premise: self.premise.clone(), conclusion: self.conclusion.clone() }
    }
}

/// What a list of rules holds.
pub open spec fn rule_views(rules: Seq<Rule>) -> Seq<RuleView> {
    rules.map_values(|rule: Rule| rule@)
}

} // verus!
