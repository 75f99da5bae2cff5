//! Symbols: the named, typed identifiers that facts are about.

use vstd::prelude::*;
use vstd::std_specs::cmp::PartialEqSpecImpl;

verus! {

/// A named, typed identifier. The type tag is free text that says which kind of
/// value is expected (`"Integer"`, `"String"`); nothing is derived from it.
#[derive(Debug, Hash)]
pub struct Symbol {
    pub name: String,
    pub symbol_type: String,
}

/// What a `Symbol` holds.
pub struct SymbolView {
    pub name: Seq<char>,
    pub symbol_type: Seq<char>,
}

impl View for Symbol {
    type V = SymbolView;

    open spec fn view(&self) -> SymbolView {
        SymbolView { name: self.name@, symbol_type: self.symbol_type@ }
    }
}

impl Symbol {
    pub fn new(name: &str, symbol_type: &str) -> (symbol: Self)
        ensures
            symbol@ == (SymbolView { name: name@, symbol_type: symbol_type@ }),
    {
        Self { name: name.to_string(), symbol_type: symbol_type.to_string() }
    }
}

impl Clone for Symbol {
    fn clone(&self) -> (copy: Self)
        ensures
            copy@ == self@,
    {
        Symbol { name: self.name.clone(), symbol_type: self.symbol_type.clone() }
    }
}

impl PartialEq for Symbol {
    /// Two symbols are equal when their names and their type tags are.
    fn eq(&self, other: &Self) -> (equal: bool) {
        self.name == other.name && self.symbol_type == other.symbol_type
    }
}

impl Eq for Symbol {

}

impl PartialEqSpecImpl for Symbol {
    open spec fn obeys_eq_spec() -> bool {
        true
    }

    open spec fn eq_spec(&self, other: &Self) -> bool {
        self@ == other@
    }
}

} // verus!
