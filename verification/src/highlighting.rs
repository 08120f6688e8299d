//! Highlight classes and the minimal numeric-literal classifier.

use vstd::prelude::*;

verus! {

/// The highlight class of one position: plain text, or part of a numeric
/// literal. A richer classifier may add classes; the buffer only needs one
/// tag per position.
#[derive(Clone, Copy, Debug, PartialEq, Eq, Structural)]
pub enum Type {
    Plain,
    Number,
}

/// The class one Unicode scalar value receives: ASCII decimal digits are
/// numbers, everything else is plain.
pub open spec fn classify(c: char) -> Type {
    if 48 <= c as u32 && c as u32 <= 57 {
        Type::Number
    } else {
        Type::Plain
    }
}

/// One class per scalar value of `s`, in order.
pub open spec fn classes_of(s: Seq<char>) -> Seq<Type> {
    Seq::new(s.len(), |i: int| classify(s[i]))
}

/// Classifies one scalar value, exactly as `classify` does.
pub fn classify_char(c: char) -> (t: Type)
    ensures
        t == classify(c),
{
    let u = c as u32;
    if 48 <= u && u <= 57 {
        Type::Number
    } else {
        Type::Plain
    }
}

} // verus!
