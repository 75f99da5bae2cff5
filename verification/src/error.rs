//! The failures that stop an inference call.

use vstd::prelude::*;

verus! {

/// A fault in how a knowledge base was put together. None of them is a logical
/// outcome: a premise that is false or a goal that cannot be proved is an
/// ordinary result.
#[derive(Clone, Copy, Debug, PartialEq, Eq, Structural)]
pub enum EngineError {
    /// A symbol of that name is in the symbol table already.
    SymbolAlreadyDefined,
    /// An operand of a comparison holds a text or a boolean, directly or
    /// through the fact that its symbol leads to.
    UnsupportedValueType,
    /// An operand of a comparison names a symbol that the symbol table lacks,
    /// or a symbol of which no fact is known.
    SymbolNotFound,
}

impl EngineError {
    /// The text of `message`.
    pub open spec fn spec_message(self) -> Seq<char> {
        match self {
            EngineError::SymbolAlreadyDefined => "Symbol already defined"@,
            EngineError::UnsupportedValueType => "Unsupported value type for numeric comparison"@,
            EngineError::SymbolNotFound => "Symbol not found in knowledge base"@,
        }
    }

    /// The diagnostic that goes with the failure.
    pub fn message(&self) -> (text: String)
        ensures
            text@ == self.spec_message(),
    {
        match self {
            EngineError::SymbolAlreadyDefined => "Symbol already defined".to_string(),
            EngineError::UnsupportedValueType => "Unsupported value type for numeric comparison".to_string(),
            EngineError::SymbolNotFound => "Symbol not found in knowledge base".to_string(),
        }
    }
}

} // verus!
