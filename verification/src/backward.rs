//! Backward chaining: the search for a proof of a goal through the rules.
//!
//! A search keeps a list of the goals that it is after. A goal that is on the
//! list already is given up, which ends every cycle among the rules. A goal
//! that fails leaves the list by its last entry; a goal that is proved stays
//! on it, with what its proof put there. So the list after a search is the
//! list before it with some goals added at its end, and the functions here
//! give those added goals.
//!
//! Every search ends. A search goes into a rule only after it has put the
//! conclusion of that rule on the list, where it was not before, and the list
//! loses nothing while the search is inside the rule: so with every rule that
//! is entered fewer rules are left whose conclusion the list lacks. That
//! number comes first in the measures below; within one list a premise is
//! taken apart before its facts become goals, and a goal looks at the list and
//! the facts before it goes through the rules.

use crate::bindings::Bindings;
use crate::coverage::{lemma_uncovered_falls, lemma_uncovered_falls_strictly, uncovered};
use crate::engine::SymbolicReasoningEngine;
use crate::error::EngineError;
use crate::evaluation::{all_hold, any_holds, compare, premise_holds};
use crate::expression::{rule_views, ComparableValue, Comparison, LogicalOperator, LogicalOperatorView};
use crate::fact::{any_has_value, contains_fact, contains_value, fact_views, facts_equal, Fact, FactView};
use crate::knowledge::KnowledgeBase;
use vstd::prelude::*;

verus! {

/// How a search ended: what it found, and the goals that it left at the end of
/// the list of visited goals.
pub struct Search {
    pub outcome: Result<bool, EngineError>,
    pub pushed: Seq<FactView>,
}

/// The search for `goal`, begun with the list `visited`.
pub open spec fn search(kb: KnowledgeBase, goal: FactView, visited: Seq<FactView>) -> Search
    decreases uncovered(kb.rules, visited, kb.rules.len()), 1int, goal, 0nat,
{
    if contains_fact(visited, goal) {
        Search { outcome: Ok(false), pushed: Seq::empty() }
    } else if contains_value(kb.facts, goal.value) {
        Search { outcome: Ok(true), pushed: Seq::empty() }
    } else {
        let tried = try_rules(kb, goal, visited, Seq::empty(), 0);
        match tried.outcome {
            Ok(false) => Search { outcome: Ok(false), pushed: (seq![goal] + tried.pushed).drop_last() },
            _ => Search { outcome: tried.outcome, pushed: seq![goal] + tried.pushed },
        }
    }
}

/// The part of the search for `goal` that goes through the rules from `from`
/// on. The list was `visited` when the search began; since then `goal` and,
/// after it, `pushed` have been put on it.
pub open spec fn try_rules(
    kb: KnowledgeBase,
    goal: FactView,
    visited: Seq<FactView>,
    pushed: Seq<FactView>,
    from: nat,
) -> Search
    decreases uncovered(kb.rules, visited, kb.rules.len()), 0int, goal, kb.rules.len() - from,
    when !contains_fact(visited, goal)
{
    if from >= kb.rules.len() {
        Search { outcome: Ok(false), pushed }
    } else if facts_equal(kb.rules[from as int].conclusion, goal) {
        proof {
            lemma_uncovered_falls_strictly(kb.rules, visited, goal, pushed, from as int, kb.rules.len());
        }
        let found = derive(kb, kb.rules[from as int].premise, visited.push(goal) + pushed);
        match found.outcome {
            Ok(false) => try_rules(kb, goal, visited, pushed + found.pushed, from + 1),
            _ => Search { outcome: found.outcome, pushed: pushed + found.pushed },
        }
    } else {
        try_rules(kb, goal, visited, pushed, from + 1)
    }
}

/// The evaluation of `premise` in a search whose list is `visited`: as a
/// premise is evaluated against the known facts, but a fact that is not known
/// becomes a goal of its own.
pub open spec fn derive(kb: KnowledgeBase, premise: LogicalOperatorView, visited: Seq<FactView>) -> Search
    decreases uncovered(kb.rules, visited, kb.rules.len()), 2int, premise, 0nat,
{
    match premise {
        LogicalOperatorView::And(children) => derive_all(kb, children, 0, visited, Seq::empty()),
        LogicalOperatorView::Or(children) => derive_any(kb, children, 0, visited, Seq::empty()),
        LogicalOperatorView::Not(child) => {
            let found = derive(kb, *child, visited);
            Search {
                outcome: match found.outcome {
                    Ok(truth) => Ok(!truth),
                    Err(error) => Err(error),
                },
                pushed: found.pushed,
            }
        },
        LogicalOperatorView::AtomicFact(fact) => if contains_fact(kb.facts, fact) {
            Search { outcome: Ok(true), pushed: Seq::empty() }
        } else {
            search(kb, fact, visited)
        },
        LogicalOperatorView::Compare(relation, left, right) => Search {
            outcome: compare(kb, relation, left, right),
            pushed: Seq::empty(),
        },
    }
}

/// The evaluation of the conjunction of `children[from..]`, the children
/// before them having put `pushed` on the list that was `visited`.
pub open spec fn derive_all(
    kb: KnowledgeBase,
    children: Seq<LogicalOperatorView>,
    from: nat,
    visited: Seq<FactView>,
    pushed: Seq<FactView>,
) -> Search
    decreases uncovered(kb.rules, visited, kb.rules.len()), 2int, children, children.len() - from,
{
    if from >= children.len() {
        Search { outcome: Ok(true), pushed }
    } else {
        proof {
            lemma_uncovered_falls(kb.rules, visited, pushed, kb.rules.len());
        }
        let found = derive(kb, children[from as int], visited + pushed);
        match found.outcome {
            Ok(true) => derive_all(kb, children, from + 1, visited, pushed + found.pushed),
            _ => Search { outcome: found.outcome, pushed: pushed + found.pushed },
        }
    }
}

/// The evaluation of the disjunction of `children[from..]`, the children
/// before them having put `pushed` on the list that was `visited`.
pub open spec fn derive_any(
    kb: KnowledgeBase,
    children: Seq<LogicalOperatorView>,
    from: nat,
    visited: Seq<FactView>,
    pushed: Seq<FactView>,
) -> Search
    decreases uncovered(kb.rules, visited, kb.rules.len()), 2int, children, children.len() - from,
{
    if from >= children.len() {
        Search { outcome: Ok(false), pushed }
    } else {
        proof {
            lemma_uncovered_falls(kb.rules, visited, pushed, kb.rules.len());
        }
        let found = derive(kb, children[from as int], visited + pushed);
        match found.outcome {
            Ok(false) => derive_any(kb, children, from + 1, visited, pushed + found.pushed),
            _ => Search { outcome: found.outcome, pushed: pushed + found.pushed },
        }
    }
}

/// Whether `goal` can be proved: the outcome of the search for it that begins
/// with an empty list.
pub open spec fn provable(kb: KnowledgeBase, goal: FactView) -> Result<bool, EngineError> {
    search(kb, goal, Seq::empty()).outcome
}

/// The truth value that an evaluation gave: bindings stand for true, none for
/// false.
pub open spec fn truth_of(result: Result<Option<Bindings>, EngineError>) -> Result<bool, EngineError> {
    match result {
        Ok(found) => Ok(found is Some),
        Err(error) => Err(error),
    }
}

impl SymbolicReasoningEngine {
    /// Whether some known fact matches `fact`.
    pub fn matches_known_fact(&self, fact: &Fact) -> (matched: bool)
        ensures
            matched == contains_fact(self@.facts, fact@),
    {
        let facts = self.facts();
        let mut i: usize = 0;
        while i < facts.len()
            invariant
                i <= facts.len(),
                fact_views(facts@) == self@.facts,
                forall|j: int| 0 <= j < i ==> !facts_equal(#[trigger] self@.facts[j], fact@),
            decreases facts.len() - i,
        {
            if self.match_fact(fact, &facts[i]) {
                assert(facts_equal(self@.facts[i as int], fact@));
                return true;
            }
            i += 1;
        }
        false
    }

    /// Evaluates a premise. Bindings stand for true and are those that came
    /// in; none stands for false.
    ///
    /// Without backward chaining the premise is evaluated against the known
    /// facts alone and `visited` is left as it is. With it, a fact that is not
    /// known is searched for as a goal, and `visited` is the list of that
    /// search.
    pub fn evaluate_logical_expression(
        &self,
        expression: &LogicalOperator,
        existing_bindings: &Bindings,
        use_backward_chaining: bool,
        visited: &mut Vec<Fact>,
    ) -> (result: Result<Option<Bindings>, EngineError>)
        ensures
            result matches Ok(Some(found)) ==> found@ == existing_bindings@,
            !use_backward_chaining ==> {
                &&& truth_of(result) == premise_holds(self@, expression@)
                &&& final(visited)@ == old(visited)@
            },
            use_backward_chaining ==> ({
                let found = derive(self@, expression@, fact_views(old(visited)@));
                &&& truth_of(result) == found.outcome
                &&& fact_views(final(visited)@) == fact_views(old(visited)@) + found.pushed
            }),
        decreases uncovered(self@.rules, fact_views(old(visited)@), self@.rules.len()), 2int, expression, 0nat,
    {
        let ghost start = fact_views(visited@);
        assert(start + Seq::<FactView>::empty() == start);
        match expression {
            LogicalOperator::And(expressions) => {
                let mut combined_bindings = existing_bindings.clone();
                let ghost mut pushed: Seq<FactView> = Seq::empty();
                let mut i: usize = 0;
                while i < expressions.len()
                    invariant
                        i <= expressions.len(),
                        expression == LogicalOperator::And(*expressions),
                        start == fact_views(old(visited)@),
                        combined_bindings@ == existing_bindings@,
                        !use_backward_chaining ==> {
                            &&& visited@ == old(visited)@
                            &&& premise_holds(self@, expression@) == all_hold(
                                self@,
                                LogicalOperator::views_of(expressions),
                                i as nat,
                            )
                        },
                        use_backward_chaining ==> {
                            &&& fact_views(visited@) == start + pushed
                            &&& derive(self@, expression@, start) == derive_all(
                                self@,
                                LogicalOperator::views_of(expressions),
                                i as nat,
                                start,
                                pushed,
                            )
                        },
                    decreases expressions.len() - i,
                {
                    proof {
                        lemma_uncovered_falls(self@.rules, start, pushed, self@.rules.len());
                    }
                    let ghost before = fact_views(visited@);
                    let step = self.evaluate_logical_expression(
                        &expressions[i],
                        &combined_bindings,
                        use_backward_chaining,
                        visited,
                    );
                    proof {
                        if use_backward_chaining {
                            let found = derive(self@, expressions[i as int]@, before);
                            assert(start + (pushed + found.pushed) == start + pushed + found.pushed);
                            pushed = pushed + found.pushed;
                        }
                    }
                    match step {
                        Err(error) => {
                            return Err(error);
                        },
                        Ok(None) => {
                            return Ok(None);
                        },
                        Ok(Some(bindings)) => {
                            combined_bindings = bindings;
                        },
                    }
                    i += 1;
                }
                Ok(Some(combined_bindings))
            },
            LogicalOperator::Or(expressions) => {
                let ghost mut pushed: Seq<FactView> = Seq::empty();
                let mut i: usize = 0;
                while i < expressions.len()
                    invariant
                        i <= expressions.len(),
                        expression == LogicalOperator::Or(*expressions),
                        start == fact_views(old(visited)@),
                        !use_backward_chaining ==> {
                            &&& visited@ == old(visited)@
                            &&& premise_holds(self@, expression@) == any_holds(
                                self@,
                                LogicalOperator::views_of(expressions),
                                i as nat,
                            )
                        },
                        use_backward_chaining ==> {
                            &&& fact_views(visited@) == start + pushed
                            &&& derive(self@, expression@, start) == derive_any(
                                self@,
                                LogicalOperator::views_of(expressions),
                                i as nat,
                                start,
                                pushed,
                            )
                        },
                    decreases expressions.len() - i,
                {
                    proof {
                        lemma_uncovered_falls(self@.rules, start, pushed, self@.rules.len());
                    }
                    let ghost before = fact_views(visited@);
                    let step = self.evaluate_logical_expression(
                        &expressions[i],
                        existing_bindings,
                        use_backward_chaining,
                        visited,
                    );
                    proof {
                        if use_backward_chaining {
                            let found = derive(self@, expressions[i as int]@, before);
                            assert(start + (pushed + found.pushed) == start + pushed + found.pushed);
                            pushed = pushed + found.pushed;
                        }
                    }
                    match step {
                        Ok(None) => {},
                        other => {
                            return other;
                        },
                    }
                    i += 1;
                }
                Ok(None)
            },
            LogicalOperator::Not(expression) => {
                match self.evaluate_logical_expression(expression, existing_bindings, use_backward_chaining, visited) {
                    Err(error) => Err(error),
                    Ok(None) => Ok(Some(existing_bindings.clone())),
                    Ok(Some(_)) => Ok(None),
                }
            },
            LogicalOperator::AtomicFact(fact) => {
                if self.matches_known_fact(fact) {
                    return Ok(Some(existing_bindings.clone()));
                }
                if use_backward_chaining {
                    match self.search_for_rules(fact, visited) {
                        Err(error) => {
                            return Err(error);
                        },
                        Ok(true) => {
                            return Ok(Some(existing_bindings.clone()));
                        },
                        Ok(false) => {},
                    }
                }
                Ok(None)
            },
            LogicalOperator::GreaterThan(left, right) => self.compared(
                left,
                right,
                Comparison::GreaterThan,
                existing_bindings,
            ),
            LogicalOperator::LessThan(left, right) => self.compared(
                left,
                right,
                Comparison::LessThan,
                existing_bindings,
            ),
            LogicalOperator::EqualTo(left, right) => self.compared(
                left,
                right,
                Comparison::EqualTo,
                existing_bindings,
            ),
            LogicalOperator::NotEqualTo(left, right) => self.compared(
                left,
                right,
                Comparison::NotEqualTo,
                existing_bindings,
            ),
            LogicalOperator::GreaterThanOrEqualTo(left, right) => self.compared(
                left,
                right,
                Comparison::GreaterThanOrEqualTo,
                existing_bindings,
            ),
            LogicalOperator::LessThanOrEqualTo(left, right) => self.compared(
                left,
                right,
                Comparison::LessThanOrEqualTo,
                existing_bindings,
            ),
        }
    }

    /// A comparison as an evaluation gives it: the bindings that came in where
    /// the relation holds, none where it does not.
    fn compared(
        &self,
        left: &ComparableValue,
        right: &ComparableValue,
        comparison: Comparison,
        existing_bindings: &Bindings,
    ) -> (result: Result<Option<Bindings>, EngineError>)
        ensures
            result matches Ok(Some(found)) ==> found@ == existing_bindings@,
            truth_of(result) == compare(self@, comparison, left@, right@),
    {
        match self.compare_values(left, right, comparison) {
            Err(error) => Err(error),
            Ok(true) => Ok(Some(existing_bindings.clone())),
            Ok(false) => Ok(None),
        }
    }

    /// Evaluates the premise of a rule against the known facts, with the
    /// variable bindings of the engine.
    pub fn match_rule(&self, premise: &LogicalOperator) -> (result: Result<Option<Bindings>, EngineError>)
        ensures
            truth_of(result) == premise_holds(self@, premise@),
            result matches Ok(Some(found)) ==> found@ == self@.bindings,
    {
        let mut visited: Vec<Fact> = Vec::new();
        self.evaluate_logical_expression(premise, self.bindings(), false, &mut visited)
    }

    /// Whether `goal` can be proved from the known facts through the rules.
    /// The engine is left as it was.
    pub fn specify_goal(&mut self, goal: &Fact) -> (result: Result<bool, EngineError>)
        ensures
            result == provable(old(self)@, goal@),
            *final(self) == *old(self),
    {
        let mut visited: Vec<Fact> = Vec::new();
        assert(fact_views(visited@) == Seq::<FactView>::empty());
        self.search_for_rules(goal, &mut visited)
    }

    /// Searches for a proof of `goal`, with `visited` as the list of the goals
    /// that the search is after.
    pub fn search_for_rules(&self, goal: &Fact, visited: &mut Vec<Fact>) -> (result: Result<bool, EngineError>)
        ensures
            ({
                let found = search(self@, goal@, fact_views(old(visited)@));
                &&& result == found.outcome
                &&& fact_views(final(visited)@) == fact_views(old(visited)@) + found.pushed
            }),
        decreases uncovered(self@.rules, fact_views(old(visited)@), self@.rules.len()), 1int, *goal, 0nat,
    {
        let ghost start = fact_views(visited@);
        assert(start + Seq::<FactView>::empty() == start);
        if self.detect_cycle(goal, visited.as_slice()) {
            return Ok(false);
        }
        if any_has_value(self.facts().as_slice(), &goal.value) {
            return Ok(true);
        }
        visited.push(goal.clone());
        assert(fact_views(visited@) == start.push(goal@));
        let rules = self.rules();
        let ghost mut pushed: Seq<FactView> = Seq::empty();
        let mut k: usize = 0;
        while k < rules.len()
            invariant
                k <= rules.len(),
                rule_views(rules@) == self@.rules,
                start == fact_views(old(visited)@),
                !contains_fact(start, goal@),
                !contains_value(self@.facts, goal@.value),
                fact_views(visited@) == start.push(goal@) + pushed,
                try_rules(self@, goal@, start, Seq::empty(), 0) == try_rules(self@, goal@, start, pushed, k as nat),
            decreases rules.len() - k,
        {
            if rules[k].conclusion == *goal {
                proof {
                    lemma_uncovered_falls_strictly(self@.rules, start, goal@, pushed, k as int, self@.rules.len());
                }
                let ghost before = fact_views(visited@);
                let step = self.evaluate_logical_expression(&rules[k].premise, self.bindings(), true, visited);
                proof {
                    let found = derive(self@, self@.rules[k as int].premise, before);
                    assert(start.push(goal@) + (pushed + found.pushed) == start.push(goal@) + pushed + found.pushed);
                    pushed = pushed + found.pushed;
                    assert(start + (seq![goal@] + pushed) == start.push(goal@) + pushed);
                }
                match step {
                    Err(error) => {
                        return Err(error);
                    },
                    Ok(Some(_)) => {
                        return Ok(true);
                    },
                    Ok(None) => {},
                }
            }
            k += 1;
        }
        visited.pop();
        proof {
            assert(start + (seq![goal@] + pushed).drop_last() == (start.push(goal@) + pushed).drop_last());
            assert(fact_views(visited@) == (start.push(goal@) + pushed).drop_last());
        }
        Ok(false)
    }
}

} // verus!
