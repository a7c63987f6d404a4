//! The key contract every registry relies on: a key is compared and
//! copied through its view, and it names a simple name (the last
//! meaningful segment of its qualified name).
use vstd::prelude::*;

verus! {

/// The last meaningful segment of a key's qualified name — the *source*
/// simple name (`com.example.Service` → `Service`). The registry keeps an
/// eager simple-name index on the back of it.
pub trait SimpleNamed: View {
    /// The simple name of a key, as a function of its view.
    spec fn simple_name_of(v: Self::V) -> Seq<char>;

    fn simple_name(&self) -> (r: &str)
        ensures
            r@ == Self::simple_name_of(self@),
    ;
}

/// The registry key contract: keys are compared and duplicated by value
/// (through their views), and are simple-named.
pub trait RegistryKey: SimpleNamed + Sized {
    /// Equality of keys: true exactly when the two keys have the same view.
    fn same_key(&self, other: &Self) -> (b: bool)
        ensures
            b == (self@ == other@),
    ;

    /// An owned copy of the key, with the same view.
    fn clone_key(&self) -> (r: Self)
        ensures
            r@ == self@,
    ;
}

} // verus!
