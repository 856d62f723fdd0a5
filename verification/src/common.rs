//! The literal values that a token can carry.

use vstd::prelude::*;

verus! {

/// A literal as it stands in the source.
///
/// A floating-point literal is kept as its text, digits, a decimal point and
/// digits: the scanner classifies it and leaves its numeric reading to the
/// caller.
#[derive(Debug, Clone, PartialEq, Eq)]
pub enum Value {
    String(String),
    Integer(i128),
    FloatingPointInteger(String),
    Boolean(bool),
}

/// What a `Value` stands for.
pub enum ValueView {
    String(Seq<char>),
    Integer(i128),
    FloatingPointInteger(Seq<char>),
    Boolean(bool),
}

impl View for Value {
    type V = ValueView;

    open spec fn view(&self) -> ValueView {
        match *self {
            Value::String(s) => ValueView::String(s@),
            Value::Integer(n) => ValueView::Integer(n),
            Value::FloatingPointInteger(s) => ValueView::FloatingPointInteger(s@),
            Value::Boolean(b) => ValueView::Boolean(b),
        }
    }
}

} // verus!
