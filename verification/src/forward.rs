//! Forward chaining: the rules whose premises hold give their conclusions to
//! the known facts.
//!
//! There are two drivers. A single pass goes through the rules once and adds
//! what they conclude and was not known before the pass. Saturation repeats
//! passes until one of them adds nothing, and adds a conclusion only where the
//! facts, as they have grown by then, lack it.

use crate::coverage::{lemma_uncovered_falls_strictly, uncovered};
use crate::engine::SymbolicReasoningEngine;
use crate::error::EngineError;
use crate::evaluation::premise_holds;
use crate::expression::{rule_views, RuleView};
use crate::fact::{contains_fact, fact_views, facts_equal, Fact, FactView};
use crate::knowledge::KnowledgeBase;
use vstd::prelude::*;

verus! {

/// The conclusions of those among the first `n` rules whose premise holds, in
/// the order of the rules. A premise that fails makes the whole fail, the first
/// such premise deciding how.
pub open spec fn fired(kb: KnowledgeBase, n: nat) -> Result<Seq<FactView>, EngineError>
    decreases n,
{
    if n == 0 || n > kb.rules.len() {
        Ok(Seq::empty())
    } else {
        match fired(kb, (n - 1) as nat) {
            Err(error) => Err(error),
            Ok(staged) => match premise_holds(kb, kb.rules[n - 1].premise) {
                Err(error) => Err(error),
                Ok(true) => Ok(staged.push(kb.rules[n - 1].conclusion)),
                Ok(false) => Ok(staged),
            },
        }
    }
}

/// As `fired`, without the conclusions that are known facts already.
pub open spec fn fired_anew(kb: KnowledgeBase, n: nat) -> Result<Seq<FactView>, EngineError>
    decreases n,
{
    if n == 0 || n > kb.rules.len() {
        Ok(Seq::empty())
    } else {
        match fired_anew(kb, (n - 1) as nat) {
            Err(error) => Err(error),
            Ok(staged) => match premise_holds(kb, kb.rules[n - 1].premise) {
                Err(error) => Err(error),
                Ok(true) => if contains_fact(kb.facts, kb.rules[n - 1].conclusion) {
                    Ok(staged)
                } else {
                    Ok(staged.push(kb.rules[n - 1].conclusion))
                },
                Ok(false) => Ok(staged),
            },
        }
    }
}

/// `facts` after each of `staged` has been added in turn, unless the facts had
/// an equal one by then.
pub open spec fn absorb(facts: Seq<FactView>, staged: Seq<FactView>) -> Seq<FactView>
    decreases staged.len(),
{
    if staged.len() == 0 {
        facts
    } else {
        let before = absorb(facts, staged.drop_last());
        if contains_fact(before, staged.last()) {
            before
        } else {
            before.push(staged.last())
        }
    }
}

/// What a pass of a saturation leaves of the facts: each conclusion that the
/// pass staged has been added unless the facts had an equal one by then. A
/// pass in which a premise fails adds nothing and fails as that premise does.
pub open spec fn after_pass(kb: KnowledgeBase) -> Result<Seq<FactView>, EngineError> {
    match fired(kb, kb.rules.len()) {
        Err(error) => Err(error),
        Ok(staged) => Ok(absorb(kb.facts, staged)),
    }
}

/// The next pass is the last one: a premise fails in it, or it adds nothing.
pub open spec fn is_last_pass(kb: KnowledgeBase) -> bool {
    match after_pass(kb) {
        Err(_) => true,
        Ok(grown) => grown.len() == kb.facts.len(),
    }
}

/// The saturation makes at most `n` passes before its last one.
pub open spec fn ends_within(kb: KnowledgeBase, n: nat) -> bool
    decreases n,
{
    is_last_pass(kb) || (n > 0 && ends_within(kb.with_facts(after_pass(kb)->Ok_0), (n - 1) as nat))
}

/// The saturation ends. It does not where some rule fires in pass after pass
/// and its conclusion does not equal itself, holding what is not a number: such
/// a conclusion is never found among the facts, however often it is added.
pub open spec fn saturation_ends(kb: KnowledgeBase) -> bool {
    exists|n: nat| ends_within(kb, n)
}

/// The number of passes that a saturation makes before its last one.
#[verifier::opaque]
pub open spec fn passes_left(kb: KnowledgeBase) -> nat {
    choose|n: nat| ends_within(kb, n) && forall|m: nat| m < n ==> !ends_within(kb, m)
}

/// Every conclusion of `rules` equals itself: none holds what is not a number.
pub open spec fn conclusions_equal_themselves(rules: Seq<RuleView>) -> bool {
    forall|k: int| 0 <= k < rules.len() ==> facts_equal((#[trigger] rules[k]).conclusion, rules[k].conclusion)
}

/// How a saturation ended, and the facts that it left.
pub struct Saturation {
    pub outcome: Result<(), EngineError>,
    pub facts: Seq<FactView>,
}

/// Saturation: passes are made until one adds nothing. A pass in which a
/// premise fails ends the saturation with that failure.
pub open spec fn saturate(kb: KnowledgeBase) -> Saturation
    decreases passes_left(kb),
    when saturation_ends(kb)
{
    match after_pass(kb) {
        Err(error) => Saturation { outcome: Err(error), facts: kb.facts },
        Ok(grown) => if grown.len() == kb.facts.len() {
            Saturation { outcome: Ok(()), facts: kb.facts }
        } else {
            proof {
                lemma_passes_left_falls(kb);
            }
            saturate(kb.with_facts(grown))
        },
    }
}

/// `passes_left` is the least number of passes within which the saturation
/// ends.
pub proof fn lemma_passes_left_is_least(kb: KnowledgeBase, n: nat)
    requires
        ends_within(kb, n),
    ensures
        ends_within(kb, passes_left(kb)),
        passes_left(kb) <= n,
    decreases n,
{
    reveal(passes_left);
    if exists|m: nat| m < n && ends_within(kb, m) {
        let m = choose|m: nat| m < n && ends_within(kb, m);
        lemma_passes_left_is_least(kb, m);
    } else {
        assert(ends_within(kb, n) && forall|m: nat| m < n ==> !ends_within(kb, m));
    }
}

/// A saturation that ends within some number of passes ends within any
/// greater number.
pub proof fn lemma_ends_within_more(kb: KnowledgeBase, n: nat, more: nat)
    requires
        ends_within(kb, n),
        n <= more,
    ensures
        ends_within(kb, more),
    decreases n,
{
    if !is_last_pass(kb) {
        lemma_ends_within_more(kb.with_facts(after_pass(kb)->Ok_0), (n - 1) as nat, (more - 1) as nat);
    }
}

/// After a pass that is not the last one the saturation still ends, and one
/// pass sooner.
pub proof fn lemma_passes_left_falls(kb: KnowledgeBase)
    requires
        saturation_ends(kb),
        !is_last_pass(kb),
    ensures
        saturation_ends(kb.with_facts(after_pass(kb)->Ok_0)),
        passes_left(kb.with_facts(after_pass(kb)->Ok_0)) < passes_left(kb),
{
    let n = choose|n: nat| ends_within(kb, n);
    lemma_passes_left_is_least(kb, n);
    let next = kb.with_facts(after_pass(kb)->Ok_0);
    lemma_passes_left_is_least(next, (passes_left(kb) - 1) as nat);
}

/// Where every conclusion of the rules equals itself the saturation ends: each
/// pass but the last covers a rule that was uncovered.
pub proof fn lemma_saturation_ends(kb: KnowledgeBase)
    requires
        conclusions_equal_themselves(kb.rules),
    ensures
        saturation_ends(kb),
        ends_within(kb, uncovered(kb.rules, kb.facts, kb.rules.len())),
    decreases uncovered(kb.rules, kb.facts, kb.rules.len()),
{
    let bound = uncovered(kb.rules, kb.facts, kb.rules.len());
    if !is_last_pass(kb) {
        let staged = fired(kb, kb.rules.len())->Ok_0;
        let next = kb.with_facts(absorb(kb.facts, staged));
        lemma_fired_are_conclusions(kb, kb.rules.len());
        lemma_absorb_covers(kb.rules, kb.facts, staged);
        lemma_saturation_ends(next);
        lemma_ends_within_more(next, uncovered(next.rules, next.facts, next.rules.len()), (bound - 1) as nat);
    }
    assert(ends_within(kb, bound));
}

/// `fact` is the conclusion of one of `rules`.
pub open spec fn is_conclusion(rules: Seq<RuleView>, fact: FactView) -> bool {
    exists|k: int| 0 <= k < rules.len() && (#[trigger] rules[k]).conclusion == fact
}

/// Each of `staged` is the conclusion of one of `rules`.
pub open spec fn are_conclusions(rules: Seq<RuleView>, staged: Seq<FactView>) -> bool {
    forall|i: int| 0 <= i < staged.len() ==> is_conclusion(rules, #[trigger] staged[i])
}

/// What `fired` gives are conclusions of the rules.
pub proof fn lemma_fired_are_conclusions(kb: KnowledgeBase, n: nat)
    requires
        n <= kb.rules.len(),
    ensures
        fired(kb, n) matches Ok(staged) ==> are_conclusions(kb.rules, staged),
    decreases n,
{
    if n > 0 {
        lemma_fired_are_conclusions(kb, (n - 1) as nat);
        if let Ok(staged) = fired(kb, n) {
            let earlier = fired(kb, (n - 1) as nat)->Ok_0;
            assert forall|i: int| 0 <= i < staged.len() implies is_conclusion(kb.rules, #[trigger] staged[i]) by {
                if i < earlier.len() {
                    assert(staged[i] == earlier[i]);
                } else {
                    assert(kb.rules[n - 1].conclusion == staged[i]);
                }
            }
        }
    }
}

/// `absorb` continues the facts: it adds at their end and takes nothing away.
pub proof fn lemma_absorb_extends(facts: Seq<FactView>, staged: Seq<FactView>)
    ensures
        absorb(facts, staged).len() >= facts.len(),
        absorb(facts, staged).subrange(0, facts.len() as int) == facts,
        absorb(facts, staged).len() == facts.len() ==> absorb(facts, staged) == facts,
    decreases staged.len(),
{
    if staged.len() > 0 {
        lemma_absorb_extends(facts, staged.drop_last());
        let before = absorb(facts, staged.drop_last());
        assert(before.push(staged.last()).subrange(0, facts.len() as int) == before.subrange(0, facts.len() as int));
    }
    let grown = absorb(facts, staged);
    if grown.len() == facts.len() {
        assert(grown == grown.subrange(0, facts.len() as int));
    }
}

/// Each fact that `absorb` adds is the conclusion of a rule of which the facts
/// had no equal: so fewer rules are left uncovered.
pub proof fn lemma_absorb_covers(rules: Seq<RuleView>, facts: Seq<FactView>, staged: Seq<FactView>)
    requires
        conclusions_equal_themselves(rules),
        are_conclusions(rules, staged),
    ensures
        absorb(facts, staged).len() >= facts.len(),
        uncovered(rules, absorb(facts, staged), rules.len()) <= uncovered(rules, facts, rules.len()),
        absorb(facts, staged).len() > facts.len() ==> uncovered(rules, absorb(facts, staged), rules.len())
            < uncovered(rules, facts, rules.len()),
    decreases staged.len(),
{
    if staged.len() > 0 {
        let earlier = staged.drop_last();
        assert forall|i: int| 0 <= i < earlier.len() implies is_conclusion(rules, #[trigger] earlier[i]) by {
            assert(earlier[i] == staged[i]);
        }
        lemma_absorb_covers(rules, facts, earlier);
        let before = absorb(facts, earlier);
        let last = staged.last();
        if !contains_fact(before, last) {
            assert(is_conclusion(rules, staged[staged.len() - 1]));
            let k = choose|k: int| 0 <= k < rules.len() && (#[trigger] rules[k]).conclusion == last;
            lemma_uncovered_falls_strictly(rules, before, last, Seq::empty(), k, rules.len());
            assert(before.push(last) + Seq::<FactView>::empty() == before.push(last));
        }
    }
}

/// Once a pass has failed, it has failed: the rules after the failing one do
/// not matter.
pub proof fn lemma_fired_failure_stays(kb: KnowledgeBase, n: nat, m: nat)
    requires
        n <= m <= kb.rules.len(),
        fired(kb, n) is Err,
    ensures
        fired(kb, m) == fired(kb, n),
    decreases m,
{
    if n < m {
        lemma_fired_failure_stays(kb, n, (m - 1) as nat);
    }
}

/// Once a pass has failed, it has failed: the rules after the failing one do
/// not matter.
pub proof fn lemma_fired_anew_failure_stays(kb: KnowledgeBase, n: nat, m: nat)
    requires
        n <= m <= kb.rules.len(),
        fired_anew(kb, n) is Err,
    ensures
        fired_anew(kb, m) == fired_anew(kb, n),
    decreases m,
{
    if n < m {
        lemma_fired_anew_failure_stays(kb, n, (m - 1) as nat);
    }
}

impl SymbolicReasoningEngine {
    /// Makes a single pass: every rule whose premise holds and whose
    /// conclusion is not a known fact has its conclusion added, once all the
    /// premises have been evaluated. Where a premise fails, nothing is added.
    pub fn forward_chaining(&mut self) -> (result: Result<(), EngineError>)
        ensures
            match fired_anew(old(self)@, old(self)@.rules.len()) {
                Ok(staged) => result is Ok && final(self)@ == old(self)@.with_facts(old(self)@.facts + staged),
                Err(error) => result == Err::<(), EngineError>(error) && final(self)@ == old(self)@,
            },
            old(self)@.wf() ==> final(self)@.wf(),
    {
        let mut new_facts: Vec<Fact> = Vec::new();
        let rules = self.rules();
        let mut i: usize = 0;
        assert(fact_views(new_facts@) == Seq::<FactView>::empty());
        while i < rules.len()
            invariant
                i <= rules.len(),
                rule_views(rules@) == self@.rules,
                fired_anew(self@, i as nat) == Ok::<Seq<FactView>, EngineError>(fact_views(new_facts@)),
            decreases rules.len() - i,
        {
            let ghost staged = fact_views(new_facts@);
            match self.is_premise_true(&rules[i].premise) {
                Err(error) => {
                    proof {
                        lemma_fired_anew_failure_stays(self@, (i + 1) as nat, self@.rules.len());
                    }
                    return Err(error);
                },
                Ok(true) => {
                    if !rules[i].conclusion.is_in(self.facts().as_slice()) {
                        new_facts.push(rules[i].conclusion.clone());
                        assert(fact_views(new_facts@) == staged.push(self@.rules[i as int].conclusion));
                    }
                },
                Ok(false) => {},
            }
            i += 1;
        }
        let ghost staged = fact_views(new_facts@);
        let ghost before = self@.facts;
        let mut j: usize = 0;
        while j < new_facts.len()
            invariant
                j <= new_facts.len(),
                staged == fact_views(new_facts@),
                self@ == old(self)@.with_facts(before + staged.take(j as int)),
            decreases new_facts.len() - j,
        {
            self.append_fact(new_facts[j].clone());
            assert((before + staged.take(j as int)).push(staged[j as int]) == before + staged.take(j + 1));
            j += 1;
        }
        assert(staged.take(j as int) == staged);
        Ok(())
    }

    /// Whether every conclusion of the rules equals itself. Where it does, a
    /// saturation ends.
    pub fn every_conclusion_equals_itself(&self) -> (result: bool)
        ensures
            result == conclusions_equal_themselves(self@.rules),
            result ==> saturation_ends(self@),
    {
        let rules = self.rules();
        let mut i: usize = 0;
        while i < rules.len()
            invariant
                i <= rules.len(),
                rule_views(rules@) == self@.rules,
                forall|k: int| 0 <= k < i ==> facts_equal((#[trigger] self@.rules[k]).conclusion, self@.rules[k].conclusion),
            decreases rules.len() - i,
        {
            if !(rules[i].conclusion == rules[i].conclusion) {
                assert(!facts_equal(self@.rules[i as int].conclusion, self@.rules[i as int].conclusion));
                return false;
            }
            i += 1;
        }
        proof {
            lemma_saturation_ends(self@);
        }
        true
    }

    /// Saturates the known facts: passes are made until one adds no fact. In
    /// a pass every rule whose premise holds has its conclusion staged and the
    /// bindings that its premise gave merged into those of the engine; after
    /// the pass each staged conclusion that the facts lack by then is added.
    /// Where a premise fails, the pass adds nothing and the failure is handed
    /// out; the facts of the passes before it stay.
    ///
    /// The saturation must be one that ends. It is wherever every conclusion
    /// of the rules equals itself, which `every_conclusion_equals_itself`
    /// tests.
    pub fn forward_chaining_with_variables(&mut self) -> (result: Result<(), EngineError>)
        requires
            saturation_ends(old(self)@),
        ensures
            result == saturate(old(self)@).outcome,
            final(self)@ == old(self)@.with_facts(saturate(old(self)@).facts),
            old(self)@.wf() ==> final(self)@.wf(),
    {
        let mut new_facts_added = true;
        while new_facts_added
            invariant
                self@ == old(self)@.with_facts(self@.facts),
                new_facts_added ==> saturation_ends(self@) && saturate(old(self)@) == saturate(self@),
                !new_facts_added ==> saturate(old(self)@) == (Saturation { outcome: Ok(()), facts: self@.facts }),
            decreases
                    passes_left(self@) + if new_facts_added {
                        1nat
                    } else {
                        0nat
                    },
        {
            new_facts_added = false;
            let ghost pass = self@;
            let mut conclusions_to_add: Vec<Fact> = Vec::new();
            assert(fact_views(conclusions_to_add@) == Seq::<FactView>::empty());
            let count = self.rules().len();
            let mut i: usize = 0;
            while i < count
                invariant
                    i <= count,
                    count == self@.rules.len(),
                    self@ == pass,
                    pass == old(self)@.with_facts(pass.facts),
                    saturation_ends(pass),
                    saturate(old(self)@) == saturate(pass),
                    fired(pass, i as nat) == Ok::<Seq<FactView>, EngineError>(fact_views(conclusions_to_add@)),
                decreases count - i,
            {
                let ghost staged = fact_views(conclusions_to_add@);
                let new_fact = self.apply_rule_conclusion(&self.rules()[i].conclusion);
                match self.match_rule(&self.rules()[i].premise) {
                    Err(error) => {
                        proof {
                            lemma_fired_failure_stays(pass, (i + 1) as nat, pass.rules.len());
                        }
                        return Err(error);
                    },
                    Ok(Some(bindings)) => {
                        self.merge_bindings(&bindings);
                        assert(self@.bindings == pass.bindings);
                        conclusions_to_add.push(new_fact);
                        assert(fact_views(conclusions_to_add@) == staged.push(pass.rules[i as int].conclusion));
                    },
                    Ok(None) => {},
                }
                i += 1;
            }
            let ghost staged = fact_views(conclusions_to_add@);
            proof {
                assert(staged.take(0) == Seq::<FactView>::empty());
            }
            let mut j: usize = 0;
            while j < conclusions_to_add.len()
                invariant
                    j <= conclusions_to_add.len(),
                    staged == fact_views(conclusions_to_add@),
                    self@ == pass.with_facts(absorb(pass.facts, staged.take(j as int))),
                    new_facts_added == (self@.facts.len() > pass.facts.len()),
                    self@.facts.len() >= pass.facts.len(),
                decreases conclusions_to_add.len() - j,
            {
                proof {
                    assert(staged.take(j + 1).drop_last() == staged.take(j as int));
                    assert(staged.take(j + 1).last() == staged[j as int]);
                }
                if !conclusions_to_add[j].is_in(self.facts().as_slice()) {
                    self.append_fact(conclusions_to_add[j].clone());
                    new_facts_added = true;
                }
                j += 1;
            }
            proof {
                assert(staged.take(j as int) == staged);
                lemma_absorb_extends(pass.facts, staged);
                if new_facts_added {
                    lemma_passes_left_falls(pass);
                }
            }
        }
        Ok(())
    }
}

} // verus!
