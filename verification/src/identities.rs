//! Identities of the evaluation of premises.

use crate::double::{lemma_of_int_keeps_order, Double};
use crate::error::EngineError;
use crate::evaluation::{all_hold, any_holds, compare, premise_holds, resolve};
use crate::expression::{ComparableValueView, Comparison, LogicalOperatorView};
use crate::knowledge::KnowledgeBase;
use crate::value::FactValueView;
use vstd::prelude::*;

verus! {

/// The negation of each of `children`.
pub open spec fn negations(children: Seq<LogicalOperatorView>) -> Seq<LogicalOperatorView> {
    children.map_values(|child: LogicalOperatorView| LogicalOperatorView::Not(Box::new(child)))
}

/// What the negation of a premise evaluates to, given what the premise does.
pub open spec fn negated(outcome: Result<bool, EngineError>) -> Result<bool, EngineError> {
    match outcome {
        Ok(truth) => Ok(!truth),
        Err(error) => Err(error),
    }
}

/// A negation evaluates to the opposite of what its child evaluates to, and
/// fails as its child fails.
pub proof fn lemma_negation(kb: KnowledgeBase, child: LogicalOperatorView)
    ensures
        premise_holds(kb, LogicalOperatorView::Not(Box::new(child))) == negated(premise_holds(kb, child)),
{
}

/// The negation of a conjunction is the disjunction of the negations, from any
/// child on.
pub proof fn lemma_negated_conjunction_from(kb: KnowledgeBase, children: Seq<LogicalOperatorView>, from: nat)
    ensures
        negated(all_hold(kb, children, from)) == any_holds(kb, negations(children), from),
    decreases children.len() - from,
{
    if from < children.len() {
        lemma_negated_conjunction_from(kb, children, from + 1);
        lemma_negation(kb, children[from as int]);
    }
}

/// The negation of a disjunction is the conjunction of the negations, from any
/// child on.
pub proof fn lemma_negated_disjunction_from(kb: KnowledgeBase, children: Seq<LogicalOperatorView>, from: nat)
    ensures
        negated(any_holds(kb, children, from)) == all_hold(kb, negations(children), from),
    decreases children.len() - from,
{
    if from < children.len() {
        lemma_negated_disjunction_from(kb, children, from + 1);
        lemma_negation(kb, children[from as int]);
    }
}

/// De Morgan: the negation of a conjunction evaluates to what the disjunction
/// of the negated children evaluates to, in every state, failures included.
pub proof fn lemma_de_morgan_conjunction(kb: KnowledgeBase, children: Seq<LogicalOperatorView>)
    ensures
        premise_holds(kb, LogicalOperatorView::Not(Box::new(LogicalOperatorView::And(children)))) == premise_holds(
            kb,
            LogicalOperatorView::Or(negations(children)),
        ),
{
    lemma_negated_conjunction_from(kb, children, 0);
    lemma_negation(kb, LogicalOperatorView::And(children));
}

/// De Morgan: the negation of a disjunction evaluates to what the conjunction
/// of the negated children evaluates to, in every state, failures included.
pub proof fn lemma_de_morgan_disjunction(kb: KnowledgeBase, children: Seq<LogicalOperatorView>)
    ensures
        premise_holds(kb, LogicalOperatorView::Not(Box::new(LogicalOperatorView::Or(children)))) == premise_holds(
            kb,
            LogicalOperatorView::And(negations(children)),
        ),
{
    lemma_negated_disjunction_from(kb, children, 0);
    lemma_negation(kb, LogicalOperatorView::Or(children));
}

/// De Morgan for two premises: `Not(And(a, b))` and `Or(Not(a), Not(b))`
/// evaluate to the same in every state.
pub proof fn lemma_de_morgan(kb: KnowledgeBase, a: LogicalOperatorView, b: LogicalOperatorView)
    ensures
        premise_holds(kb, LogicalOperatorView::Not(Box::new(LogicalOperatorView::And(seq![a, b])))) == premise_holds(
            kb,
            LogicalOperatorView::Or(
                seq![LogicalOperatorView::Not(Box::new(a)), LogicalOperatorView::Not(Box::new(b))],
            ),
        ),
{
    lemma_de_morgan_conjunction(kb, seq![a, b]);
    assert(negations(seq![a, b]) == seq![
        LogicalOperatorView::Not(Box::new(a)),
        LogicalOperatorView::Not(Box::new(b)),
    ]);
}

/// Two integers that are given directly compare as integers do: their
/// conversion to binary64 numbers loses nothing.
pub proof fn lemma_integers_compare_as_integers(kb: KnowledgeBase, relation: Comparison, left: int, right: int)
    requires
        i32::MIN <= left <= i32::MAX,
        i32::MIN <= right <= i32::MAX,
    ensures
        compare(
            kb,
            relation,
            ComparableValueView::Direct(FactValueView::Integer(left)),
            ComparableValueView::Direct(FactValueView::Integer(right)),
        ) == Ok::<bool, EngineError>(relation.holds_between(left, right)),
{
    lemma_of_int_keeps_order(left, right);
    lemma_of_int_keeps_order(right, left);
}

/// Of two numbers exactly one of these holds: the first is the smaller, the
/// two are equal, the second is the smaller.
pub proof fn lemma_numbers_are_ordered(a: Double, b: Double)
    requires
        !a.spec_is_nan(),
        !b.spec_is_nan(),
    ensures
        a.precedes(b) || a.equals(b) || b.precedes(a),
        !(a.precedes(b) && a.equals(b)),
        !(a.precedes(b) && b.precedes(a)),
        !(a.equals(b) && b.precedes(a)),
{
}

/// Where two operands resolve to numbers that are not equal, exactly one of
/// `GreaterThan` and `LessThan` is true of them.
pub proof fn lemma_comparison_antisymmetry(kb: KnowledgeBase, left: ComparableValueView, right: ComparableValueView)
    requires
        resolve(kb, left) matches Ok(l) && !l.spec_is_nan(),
        resolve(kb, right) matches Ok(r) && !r.spec_is_nan(),
        premise_holds(kb, LogicalOperatorView::Compare(Comparison::NotEqualTo, left, right)) == Ok::<
            bool,
            EngineError,
        >(true),
    ensures
        premise_holds(kb, LogicalOperatorView::Compare(Comparison::GreaterThan, left, right)) is Ok,
        premise_holds(kb, LogicalOperatorView::Compare(Comparison::LessThan, left, right)) is Ok,
        premise_holds(kb, LogicalOperatorView::Compare(Comparison::GreaterThan, left, right))->Ok_0 != premise_holds(
            kb,
            LogicalOperatorView::Compare(Comparison::LessThan, left, right),
        )->Ok_0,
{
    lemma_numbers_are_ordered(resolve(kb, left)->Ok_0, resolve(kb, right)->Ok_0);
}

} // verus!
