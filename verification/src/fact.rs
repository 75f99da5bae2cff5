//! Facts: a symbol together with the value asserted of it.

use crate::symbol::{Symbol, SymbolView};
use crate::value::{values_equal, FactValue, FactValueView};
use vstd::prelude::*;
use vstd::std_specs::cmp::PartialEqSpecImpl;

verus! {

/// The assertion that a symbol has a value.
#[derive(Debug)]
pub struct Fact {
    pub symbol: Symbol,
    pub value: FactValue,
}

/// What a `Fact` holds.
pub struct FactView {
    pub symbol: SymbolView,
    pub value: FactValueView,
}

impl View for Fact {
    type V = FactView;

    open spec fn view(&self) -> FactView {
        FactView { symbol: self.symbol@, value: self.value@ }
    }
}

/// Equality of facts: the symbols are the same and the values are equal.
pub open spec fn facts_equal(a: FactView, b: FactView) -> bool {
    a.symbol == b.symbol && values_equal(a.value, b.value)
}

/// What a list of facts holds.
pub open spec fn fact_views(facts: Seq<Fact>) -> Seq<FactView> {
    facts.map_values(|fact: Fact| fact@)
}

/// Some member of `facts` equals `fact`.
pub open spec fn contains_fact(facts: Seq<FactView>, fact: FactView) -> bool {
    exists|i: int| 0 <= i < facts.len() && facts_equal(#[trigger] facts[i], fact)
}

/// Some member of `facts` has a value equal to `value`, whatever its symbol.
pub open spec fn contains_value(facts: Seq<FactView>, value: FactValueView) -> bool {
    exists|i: int| 0 <= i < facts.len() && values_equal((#[trigger] facts[i]).value, value)
}

/// No two members of `facts` are equal.
pub open spec fn no_duplicates(facts: Seq<FactView>) -> bool {
    forall|i: int, j: int| 0 <= i < j < facts.len() ==> !facts_equal(facts[i], facts[j])
}

impl Fact {
    pub fn new(symbol: Symbol, value: FactValue) -> (fact: Self)
        ensures
            fact == (Fact { symbol, value }),
    {
        Self { symbol, value }
    }

    /// Whether `list` holds a fact equal to this one.
    pub fn is_in(&self, list: &[Fact]) -> (found: bool)
        ensures
            found == contains_fact(fact_views(list@), self@),
    {
        let mut i: usize = 0;
        while i < list.len()
            invariant
                i <= list.len(),
                forall|j: int| 0 <= j < i ==> !facts_equal(#[trigger] fact_views(list@)[j], self@),
            decreases list.len() - i,
        {
            if list[i] == *self {
                assert(facts_equal(fact_views(list@)[i as int], self@));
                return true;
            }
            i += 1;
        }
        false
    }
}

/// Whether some fact of `list` has a value equal to `value`, whatever its
/// symbol.
pub fn any_has_value(list: &[Fact], value: &FactValue) -> (found: bool)
    ensures
        found == contains_value(fact_views(list@), value@),
{
    let mut i: usize = 0;
    while i < list.len()
        invariant
            i <= list.len(),
            forall|j: int| 0 <= j < i ==> !values_equal((#[trigger] fact_views(list@)[j]).value, value@),
        decreases list.len() - i,
    {
        if list[i].value == *value {
            assert(values_equal(fact_views(list@)[i as int].value, value@));
            return true;
        }
        i += 1;
    }
    false
}

impl Clone for Fact {
    fn clone(&self) -> (copy: Self)
        ensures
            copy@ == self@,
    {
        Fact { symbol: self.symbol.clone(), value: self.value.clone() }
    }
}

impl PartialEq for Fact {
    fn eq(&self, other: &Self) -> (equal: bool) {
        self.symbol == other.symbol && self.value == other.value
    }
}

impl PartialEqSpecImpl for Fact {
    open spec fn obeys_eq_spec() -> bool {
        true
    }

    open spec fn eq_spec(&self, other: &Self) -> bool {
        facts_equal(self@, other@)
    }
}

} // verus!
