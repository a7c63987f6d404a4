//! Fully-qualified names (`com.example.Service`).
use vstd::prelude::*;

use crate::text::{last_segment, last_segment_spec, str_eq, IntoText};

verus! {

/// A fully-qualified, dot-separated JVM name.
#[derive(Debug, Clone, PartialEq, Eq, Hash)]
pub struct Fqn(pub String);

impl View for Fqn {
    type V = Seq<char>;

    open spec fn view(&self) -> Seq<char> {
        self.0@
    }
}

impl Fqn {
    /// A name holding the characters of `s` (a `&str`, a `String` or
    /// another `Fqn`).
    pub fn new<T: IntoText>(s: T) -> (r: Fqn)
        ensures
            r@ == s@,
    {
        Fqn(s.into_text())
    }

    pub fn as_str(&self) -> (r: &str)
        ensures
            r@ == self@,
    {
        self.0.as_str()
    }

    /// The segment after the last `.` (the whole name when there is none).
    pub fn simple_name(&self) -> (r: &str)
        ensures
            r@ == last_segment_spec(self@),
    {
        last_segment(self.0.as_str())
    }

    /// True iff both names hold the same characters.
    pub fn same(&self, other: &Fqn) -> (b: bool)
        ensures
            b == (self@ == other@),
    {
        str_eq(self.0.as_str(), other.0.as_str())
    }

    /// A copy with the same characters.
    pub fn duplicate(&self) -> (r: Fqn)
        ensures
            r@ == self@,
    {
        Fqn(String::from_str(self.0.as_str()))
    }
}

impl IntoText for Fqn {
    fn into_text(self) -> (r: String) {
        self.0
    }
}

} // verus!
