//! What holds of the facts that forward chaining leaves.

use crate::coverage::lemma_contains_fact_extends;
use crate::error::EngineError;
use crate::evaluation::premise_holds;
use crate::fact::{contains_fact, facts_equal, no_duplicates, FactView};
use crate::forward::{
    absorb, after_pass, fired, fired_anew, is_last_pass, lemma_absorb_extends, lemma_passes_left_falls, passes_left,
    saturate, saturation_ends,
};
use crate::knowledge::KnowledgeBase;
use vstd::prelude::*;

verus! {

/// The number of members of `facts` that equal `fact`.
pub open spec fn occurrences(facts: Seq<FactView>, fact: FactView) -> nat
    decreases facts.len(),
{
    if facts.len() == 0 {
        0
    } else {
        occurrences(facts.drop_last(), fact) + if facts_equal(facts.last(), fact) {
            1nat
        } else {
            0nat
        }
    }
}

/// A fact occurs among the facts just where they contain it.
pub proof fn lemma_occurs_where_contained(facts: Seq<FactView>, fact: FactView)
    ensures
        occurrences(facts, fact) > 0 <==> contains_fact(facts, fact),
    decreases facts.len(),
{
    if facts.len() > 0 {
        let earlier = facts.drop_last();
        lemma_occurs_where_contained(earlier, fact);
        if contains_fact(earlier, fact) {
            lemma_contains_fact_extends(earlier, seq![facts.last()], fact);
            assert(earlier + seq![facts.last()] == facts);
        }
        if contains_fact(facts, fact) && !facts_equal(facts.last(), fact) {
            let i = choose|i: int| 0 <= i < facts.len() && facts_equal(#[trigger] facts[i], fact);
            assert(facts_equal(earlier[i], fact));
        }
    }
}

/// Facts without duplicates stay without duplicates when staged facts are
/// absorbed.
pub proof fn lemma_absorb_keeps_facts_distinct(facts: Seq<FactView>, staged: Seq<FactView>)
    requires
        no_duplicates(facts),
    ensures
        no_duplicates(absorb(facts, staged)),
    decreases staged.len(),
{
    if staged.len() > 0 {
        lemma_absorb_keeps_facts_distinct(facts, staged.drop_last());
    }
}

/// Absorbing staged facts adds no fact that the facts had an equal of, and no
/// fact twice.
pub proof fn lemma_absorb_adds_once(facts: Seq<FactView>, staged: Seq<FactView>, fact: FactView)
    ensures
        occurrences(absorb(facts, staged), fact) == occurrences(facts, fact) || (occurrences(facts, fact) == 0
            && occurrences(absorb(facts, staged), fact) == 1),
    decreases staged.len(),
{
    if staged.len() > 0 {
        lemma_absorb_adds_once(facts, staged.drop_last(), fact);
        let before = absorb(facts, staged.drop_last());
        let last = staged.last();
        if !contains_fact(before, last) {
            assert(before.push(last).drop_last() == before);
            if facts_equal(last, fact) {
                lemma_occurs_where_contained(before, fact);
                if contains_fact(before, fact) {
                    let i = choose|i: int| 0 <= i < before.len() && facts_equal(#[trigger] before[i], fact);
                    assert(facts_equal(before[i], last));
                }
            }
        }
    }
}

/// Where the facts have no duplicates before a saturation, they have none
/// after it.
pub proof fn lemma_saturate_keeps_facts_distinct(kb: KnowledgeBase)
    requires
        saturation_ends(kb),
        no_duplicates(kb.facts),
    ensures
        no_duplicates(saturate(kb).facts),
    decreases passes_left(kb),
{
    if !is_last_pass(kb) {
        lemma_passes_left_falls(kb);
        lemma_absorb_keeps_facts_distinct(kb.facts, fired(kb, kb.rules.len())->Ok_0);
        lemma_saturate_keeps_facts_distinct(kb.with_facts(after_pass(kb)->Ok_0));
    }
}

/// A saturation adds no fact that the facts had an equal of, and no fact
/// twice: however many rules conclude a fact and however often they fire, the
/// fact occurs as often as before, or once where it did not occur.
pub proof fn lemma_saturate_adds_once(kb: KnowledgeBase, fact: FactView)
    requires
        saturation_ends(kb),
    ensures
        occurrences(saturate(kb).facts, fact) == occurrences(kb.facts, fact) || (occurrences(kb.facts, fact) == 0
            && occurrences(saturate(kb).facts, fact) == 1),
    decreases passes_left(kb),
{
    if !is_last_pass(kb) {
        lemma_passes_left_falls(kb);
        lemma_absorb_adds_once(kb.facts, fired(kb, kb.rules.len())->Ok_0, fact);
        lemma_saturate_adds_once(kb.with_facts(after_pass(kb)->Ok_0), fact);
    }
}

/// A saturation takes no fact away: the facts before it are the first of the
/// facts after it.
pub proof fn lemma_saturate_extends(kb: KnowledgeBase)
    requires
        saturation_ends(kb),
    ensures
        saturate(kb).facts.len() >= kb.facts.len(),
        saturate(kb).facts.subrange(0, kb.facts.len() as int) == kb.facts,
    decreases passes_left(kb),
{
    if is_last_pass(kb) {
        assert(kb.facts.subrange(0, kb.facts.len() as int) == kb.facts);
    } else {
        let grown = after_pass(kb)->Ok_0;
        lemma_passes_left_falls(kb);
        lemma_absorb_extends(kb.facts, fired(kb, kb.rules.len())->Ok_0);
        lemma_saturate_extends(kb.with_facts(grown));
        let last = saturate(kb).facts;
        assert(last.subrange(0, kb.facts.len() as int) == last.subrange(0, grown.len() as int).subrange(
            0,
            kb.facts.len() as int,
        ));
    }
}

/// Saturation is idempotent: a second saturation right after the first ends
/// as the first did and leaves the facts as the first left them.
pub proof fn lemma_saturate_is_idempotent(kb: KnowledgeBase)
    requires
        saturation_ends(kb),
    ensures
        saturation_ends(kb.with_facts(saturate(kb).facts)),
        saturate(kb.with_facts(saturate(kb).facts)) == saturate(kb),
    decreases passes_left(kb),
{
    if is_last_pass(kb) {
        assert(kb.with_facts(kb.facts) == kb);
    } else {
        let next = kb.with_facts(after_pass(kb)->Ok_0);
        lemma_passes_left_falls(kb);
        lemma_saturate_is_idempotent(next);
        assert(next.with_facts(saturate(next).facts) == kb.with_facts(saturate(kb).facts));
    }
}

/// The conclusion of a rule whose premise holds is among what `fired` gives.
pub proof fn lemma_fired_has_conclusion(kb: KnowledgeBase, n: nat, k: int)
    requires
        0 <= k < n <= kb.rules.len(),
        fired(kb, n) is Ok,
        premise_holds(kb, kb.rules[k].premise) == Ok::<bool, EngineError>(true),
    ensures
        fired(kb, n)->Ok_0.contains(kb.rules[k].conclusion),
    decreases n,
{
    let staged = fired(kb, n)->Ok_0;
    let earlier = fired(kb, (n - 1) as nat)->Ok_0;
    if k < n - 1 {
        lemma_fired_has_conclusion(kb, (n - 1) as nat, k);
        let i = choose|i: int| 0 <= i < earlier.len() && earlier[i] == kb.rules[k].conclusion;
        assert(staged[i] == kb.rules[k].conclusion);
    } else {
        assert(staged[staged.len() - 1] == kb.rules[k].conclusion);
    }
}

/// Where absorbing staged facts adds nothing, the facts contained each of them.
pub proof fn lemma_absorb_without_growth(facts: Seq<FactView>, staged: Seq<FactView>, i: int)
    requires
        absorb(facts, staged).len() == facts.len(),
        0 <= i < staged.len(),
    ensures
        contains_fact(facts, staged[i]),
    decreases staged.len(),
{
    let earlier = staged.drop_last();
    lemma_absorb_extends(facts, earlier);
    if i < staged.len() - 1 {
        lemma_absorb_without_growth(facts, earlier, i);
    }
}

/// After a saturation that ended without failure the facts are closed under
/// the rules: the conclusion of every rule whose premise holds of them is
/// among them.
pub proof fn lemma_saturate_closes(kb: KnowledgeBase, k: int)
    requires
        saturation_ends(kb),
        saturate(kb).outcome is Ok,
        0 <= k < kb.rules.len(),
        premise_holds(kb.with_facts(saturate(kb).facts), kb.rules[k].premise) == Ok::<bool, EngineError>(
            true,
        ),
    ensures
        contains_fact(saturate(kb).facts, kb.rules[k].conclusion),
    decreases passes_left(kb),
{
    let staged = fired(kb, kb.rules.len())->Ok_0;
    if is_last_pass(kb) {
        assert(kb.with_facts(kb.facts) == kb);
        lemma_fired_has_conclusion(kb, kb.rules.len(), k);
        let i = choose|i: int| 0 <= i < staged.len() && staged[i] == kb.rules[k].conclusion;
        lemma_absorb_without_growth(kb.facts, staged, i);
    } else {
        let next = kb.with_facts(absorb(kb.facts, staged));
        lemma_passes_left_falls(kb);
        assert(next.with_facts(saturate(next).facts) == kb.with_facts(saturate(kb).facts));
        lemma_saturate_closes(next, k);
    }
}

/// What a single pass adds was not among the facts.
pub proof fn lemma_fired_anew_are_new(kb: KnowledgeBase, n: nat, i: int)
    requires
        n <= kb.rules.len(),
        fired_anew(kb, n) is Ok,
        0 <= i < fired_anew(kb, n)->Ok_0.len(),
    ensures
        !contains_fact(kb.facts, fired_anew(kb, n)->Ok_0[i]),
    decreases n,
{
    if n > 0 {
        let earlier = fired_anew(kb, (n - 1) as nat)->Ok_0;
        if i < earlier.len() {
            lemma_fired_anew_are_new(kb, (n - 1) as nat, i);
        }
    }
}

/// A single pass leaves the facts without duplicates where they had none and
/// no two of the conclusions that it adds are equal.
pub proof fn lemma_single_pass_keeps_facts_distinct(kb: KnowledgeBase)
    requires
        no_duplicates(kb.facts),
        fired_anew(kb, kb.rules.len()) is Ok,
        no_duplicates(fired_anew(kb, kb.rules.len())->Ok_0),
    ensures
        no_duplicates(kb.facts + fired_anew(kb, kb.rules.len())->Ok_0),
{
    let staged = fired_anew(kb, kb.rules.len())->Ok_0;
    let after = kb.facts + staged;
    assert forall|i: int, j: int| 0 <= i < j < after.len() implies !facts_equal(after[i], after[j]) by {
        if i < kb.facts.len() && j >= kb.facts.len() {
            lemma_fired_anew_are_new(kb, kb.rules.len(), j - kb.facts.len());
        }
    }
}

} // verus!
