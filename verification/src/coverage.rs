//! How many rules still have a conclusion that a list of facts lacks.
//!
//! Both ways of inference end because this number falls: a forward pass that
//! adds a fact adds the conclusion of a rule, and a backward search that goes
//! into a rule has put the conclusion of that rule on its list of goals.

use crate::expression::RuleView;
use crate::fact::{contains_fact, facts_equal, FactView};
use vstd::prelude::*;

verus! {

/// The number of rules among the first `n` whose conclusion no member of
/// `facts` equals.
pub open spec fn uncovered(rules: Seq<RuleView>, facts: Seq<FactView>, n: nat) -> nat
    decreases n,
{
    if n == 0 || n > rules.len() {
        0
    } else {
        uncovered(rules, facts, (n - 1) as nat) + if contains_fact(facts, rules[n - 1].conclusion) {
            0nat
        } else {
            1nat
        }
    }
}

/// A member of a list is a member of every list that continues it.
pub proof fn lemma_contains_fact_extends(facts: Seq<FactView>, more: Seq<FactView>, fact: FactView)
    requires
        contains_fact(facts, fact),
    ensures
        contains_fact(facts + more, fact),
{
    let i = choose|i: int| 0 <= i < facts.len() && facts_equal(#[trigger] facts[i], fact);
    assert((facts + more)[i] == facts[i]);
}

/// More facts leave no more rules uncovered.
pub proof fn lemma_uncovered_falls(rules: Seq<RuleView>, facts: Seq<FactView>, more: Seq<FactView>, n: nat)
    requires
        n <= rules.len(),
    ensures
        uncovered(rules, facts + more, n) <= uncovered(rules, facts, n),
    decreases n,
{
    if n > 0 {
        lemma_uncovered_falls(rules, facts, more, (n - 1) as nat);
        if contains_fact(facts, rules[n - 1].conclusion) {
            lemma_contains_fact_extends(facts, more, rules[n - 1].conclusion);
        }
    }
}

/// A new fact that equals the conclusion of rule `k` leaves fewer rules
/// uncovered, whatever else comes after it.
pub proof fn lemma_uncovered_falls_strictly(
    rules: Seq<RuleView>,
    facts: Seq<FactView>,
    fact: FactView,
    more: Seq<FactView>,
    k: int,
    n: nat,
)
    requires
        0 <= k < rules.len(),
        n <= rules.len(),
        facts_equal(rules[k].conclusion, fact),
        !contains_fact(facts, fact),
    ensures
        uncovered(rules, facts.push(fact) + more, n) <= uncovered(rules, facts, n),
        k < n ==> uncovered(rules, facts.push(fact) + more, n) < uncovered(rules, facts, n),
    decreases n,
{
    if n > 0 {
        lemma_uncovered_falls_strictly(rules, facts, fact, more, k, (n - 1) as nat);
        let conclusion = rules[n - 1].conclusion;
        let after = facts.push(fact) + more;
        if contains_fact(facts, conclusion) {
            lemma_contains_fact_extends(facts, seq![fact] + more, conclusion);
            assert(facts + (seq![fact] + more) == after);
        }
        if n - 1 == k {
            assert(after[facts.len() as int] == fact);
            assert(contains_fact(after, conclusion));
            if contains_fact(facts, conclusion) {
                let i = choose|i: int| 0 <= i < facts.len() && facts_equal(#[trigger] facts[i], conclusion);
                assert(facts_equal(facts[i], fact));
            }
        }
    }
}

} // verus!
