//! The values that facts and variables hold.

use crate::double::Double;
use vstd::prelude::*;
use vstd::std_specs::cmp::PartialEqSpecImpl;

verus! {

/// A value: an integer, a binary64 number, a boolean or a text.
#[derive(Debug)]
pub enum FactValue {
    Integer(i32),
    Float(Double),
    Boolean(bool),
    Text(String),
}

/// What a `FactValue` holds.
pub enum FactValueView {
    Integer(int),
    Float(Double),
    Boolean(bool),
    Text(Seq<char>),
}

impl View for FactValue {
    type V = FactValueView;

    open spec fn view(&self) -> FactValueView {
        match self {
            FactValue::Integer(i) => FactValueView::Integer(*i as int),
            FactValue::Float(d) => FactValueView::Float(*d),
            FactValue::Boolean(b) => FactValueView::Boolean(*b),
            FactValue::Text(text) => FactValueView::Text(text@),
        }
    }
}

/// Equality of values: two values of one variant are equal when what they hold
/// is, two binary64 numbers as IEEE 754 compares them; values of different
/// variants never are.
pub open spec fn values_equal(a: FactValueView, b: FactValueView) -> bool {
    match (a, b) {
        (FactValueView::Integer(x), FactValueView::Integer(y)) => x == y,
        (FactValueView::Float(x), FactValueView::Float(y)) => x.equals(y),
        (FactValueView::Boolean(x), FactValueView::Boolean(y)) => x == y,
        (FactValueView::Text(x), FactValueView::Text(y)) => x == y,
        _ => false,
    }
}

/// The number that a value is in a comparison: that of an integer or of a
/// binary64 number; none for a boolean or a text.
pub open spec fn numeric_value(value: FactValueView) -> Option<Double> {
    match value {
        FactValueView::Integer(i) => Some(Double::of_int(i)),
        FactValueView::Float(d) => Some(d),
        _ => None,
    }
}

impl FactValue {
    /// The number that this value is in a comparison, if it is one.
    pub fn as_number(&self) -> (number: Option<Double>)
        ensures
            number == numeric_value(self@),
    {
        match self {
            FactValue::Integer(i) => Some(Double::from_i32(*i)),
            FactValue::Float(d) => Some(*d),
            _ => None,
        }
    }
}

impl Clone for FactValue {
    fn clone(&self) -> (copy: Self)
        ensures
            copy@ == self@,
    {
        match self {
            FactValue::Integer(i) => FactValue::Integer(*i),
            FactValue::Float(d) => FactValue::Float(*d),
            FactValue::Boolean(b) => FactValue::Boolean(*b),
            FactValue::Text(text) => FactValue::Text(text.clone()),
        }
    }
}

impl PartialEq for FactValue {
    fn eq(&self, other: &Self) -> (equal: bool) {
        match (self, other) {
            (FactValue::Integer(l), FactValue::Integer(r)) => *l == *r,
            (FactValue::Float(l), FactValue::Float(r)) => *l == *r,
            (FactValue::Boolean(l), FactValue::Boolean(r)) => *l == *r,
            (FactValue::Text(l), FactValue::Text(r)) => *l == *r,
            _ => false,
        }
    }
}

impl PartialEqSpecImpl for FactValue {
    open spec fn obeys_eq_spec() -> bool {
        true
    }

    open spec fn eq_spec(&self, other: &Self) -> bool {
        values_equal(self@, other@)
    }
}

/// Equality of values is symmetric.
pub proof fn lemma_values_equal_symmetric(a: FactValueView, b: FactValueView)
    ensures
        values_equal(a, b) == values_equal(b, a),
{
}

/// Equality of values is transitive.
pub proof fn lemma_values_equal_transitive(a: FactValueView, b: FactValueView, c: FactValueView)
    requires
        values_equal(a, b),
        values_equal(b, c),
    ensures
        values_equal(a, c),
{
}

/// Two equal values both equal themselves: neither holds what is not a number.
pub proof fn lemma_values_equal_reflexive(a: FactValueView, b: FactValueView)
    requires
        values_equal(a, b),
    ensures
        values_equal(a, a),
        values_equal(b, b),
{
}

} // verus!
