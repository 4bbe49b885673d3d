//! Leaf values of the JSON documents the widget reads, and wrapping `i64` sums.
use vstd::prelude::*;

verus! {

/// A JSON value carried through unchanged. Integers that fit `i64` and strings are held
/// as such; any other value (fractional or large numbers, arrays, objects) is held as
/// its JSON text.
pub enum JsonVal {
    Null,
    Bool(bool),
    Int(i64),
    Str(String),
    Other(String),
}

/// The mathematical content of a `JsonVal`.
pub enum JsonLeaf {
    Null,
    Bool(bool),
    Int(i64),
    Str(Seq<char>),
    Other(Seq<char>),
}

impl View for JsonVal {
    type V = JsonLeaf;

    open spec fn view(&self) -> JsonLeaf {
        match self {
            JsonVal::Null => JsonLeaf::Null,
            JsonVal::Bool(b) => JsonLeaf::Bool(*b),
            JsonVal::Int(i) => JsonLeaf::Int(*i),
            JsonVal::Str(s) => JsonLeaf::Str(s@),
            JsonVal::Other(s) => JsonLeaf::Other(s@),
        }
    }
}

impl JsonVal {
    /// The string content, when the value is a JSON string.
    pub open spec fn str_view(self) -> Option<Seq<char>> {
        match self {
            JsonVal::Str(s) => Some(s@),
            _ => None,
        }
    }

    /// An identical copy.
    pub fn dup(&self) -> (r: JsonVal)
        ensures
            r == *self,
    {
        match self {
            JsonVal::Null => JsonVal::Null,
            JsonVal::Bool(b) => JsonVal::Bool(*b),
            JsonVal::Int(i) => JsonVal::Int(*i),
            JsonVal::Str(s) => JsonVal::Str(s.clone()),
            JsonVal::Other(s) => JsonVal::Other(s.clone()),
        }
    }

    /// The string content, when the value is a JSON string.
    pub fn as_str(&self) -> (r: Option<&String>)
        ensures
            match r {
                Some(s) => self.str_view() == Some(s@),
                None => self.str_view() is None,
            },
    {
        match self {
            JsonVal::Str(s) => Some(s),
            _ => None,
        }
    }
}

/// Two's-complement `i64` addition (what `+` does on `i64` in a build without overflow checks).
pub open spec fn wadd(a: i64, b: i64) -> i64 {
    vstd::wrapping::i64_specs::wrapping_add(a, b)
}

/// Adds with wrap-around.
pub fn wrapping_add(a: i64, b: i64) -> (r: i64)
    ensures
        r == wadd(a, b),
{
    a.wrapping_add(b)
}

} // verus!
