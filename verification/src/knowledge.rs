//! The state of an engine as contracts see it.

use crate::expression::RuleView;
use crate::fact::FactView;
use crate::symbol::SymbolView;
use crate::value::FactValueView;
use vstd::prelude::*;

verus! {

/// What an engine knows: its symbol table, its facts and its rules in the order
/// in which they came, its variable bindings and its debug flag.
pub struct KnowledgeBase {
    pub symbols: Map<Seq<char>, SymbolView>,
    pub facts: Seq<FactView>,
    pub rules: Seq<RuleView>,
    pub bindings: Map<Seq<char>, FactValueView>,
    pub debug: bool,
}

impl KnowledgeBase {
    /// The state of a new engine.
    pub open spec fn empty() -> KnowledgeBase {
        KnowledgeBase {
            symbols: Map::empty(),
            facts: Seq::empty(),
            rules: Seq::empty(),
            bindings: Map::empty(),
            debug: false,
        }
    }

    /// Every symbol of the table stands under its own name.
    pub open spec fn wf(self) -> bool {
        forall|name: Seq<char>| self.symbols.contains_key(name) ==> (#[trigger] self.symbols[name]).name == name
    }

    /// The same state with other facts.
    pub open spec fn with_facts(self, facts: Seq<FactView>) -> KnowledgeBase {
        KnowledgeBase { facts, ..self }
    }
}

/// The first of `facts` that is about `symbol`.
pub open spec fn first_fact_about(facts: Seq<FactView>, symbol: SymbolView) -> Option<FactView>
    decreases facts.len(),
{
    if facts.len() == 0 {
        None
    } else if facts[0].symbol == symbol {
        Some(facts[0])
    } else {
        first_fact_about(facts.drop_first(), symbol)
    }
}

/// Where none of the first `at` facts is about `symbol`, the first fact about
/// it is the one at `at` if that one is, and there is none if `at` is the end.
pub proof fn lemma_first_fact_about(facts: Seq<FactView>, symbol: SymbolView, at: int)
    requires
        0 <= at <= facts.len(),
        forall|j: int| 0 <= j < at ==> (#[trigger] facts[j]).symbol != symbol,
        at < facts.len() ==> facts[at].symbol == symbol,
    ensures
        first_fact_about(facts, symbol) == if at < facts.len() {
            Some(facts[at])
        } else {
            None
        },
    decreases at,
{
    if at > 0 {
        let rest = facts.drop_first();
        assert forall|j: int| 0 <= j < at - 1 implies (#[trigger] rest[j]).symbol != symbol by {
            assert(rest[j] == facts[j + 1]);
        }
        lemma_first_fact_about(rest, symbol, at - 1);
    }
}

/// No two symbols of a symbol table share a name.
pub proof fn lemma_symbol_names_are_unique(kb: KnowledgeBase, a: Seq<char>, b: Seq<char>)
    requires
        kb.wf(),
        kb.symbols.contains_key(a),
        kb.symbols.contains_key(b),
        kb.symbols[a].name == kb.symbols[b].name,
    ensures
        a == b,
        kb.symbols[a] == kb.symbols[b],
{
}

} // verus!
