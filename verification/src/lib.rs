//! A rule-based inference engine over typed symbols, facts and rules.
//!
//! An engine holds a symbol table, a list of known facts, a list of rules and
//! a map of variable bindings. A rule is a premise, which is a tree of logical
//! operators over facts and comparisons of numbers, and a conclusion, which is
//! a fact. Forward chaining adds the conclusions of the rules whose premises
//! hold; backward chaining searches the rules for a proof of a goal.

pub mod backward;
pub mod bindings;
pub mod coverage;
pub mod double;
pub mod engine;
pub mod error;
pub mod evaluation;
pub mod expression;
pub mod fact;
pub mod fixpoint;
pub mod forward;
pub mod identities;
pub mod knowledge;
pub mod symbol;
pub mod value;

pub use crate::bindings::Bindings;
pub use crate::double::Double;
pub use crate::engine::SymbolicReasoningEngine;
pub use crate::error::EngineError;
pub use crate::expression::{ComparableValue, Comparison, LogicalOperator, Rule};
pub use crate::fact::Fact;
pub use crate::symbol::Symbol;
pub use crate::value::FactValue;
