//! What `==` decides.

use vstd::prelude::*;
use vstd::std_specs::cmp::PartialEqSpec;

verus! {

/// The operator `==` of the type `K` decides whether two values are the `same`.
pub open spec fn decides<K: PartialEq>(same: spec_fn(K, K) -> bool) -> bool {
    forall|a: K, b: K, equal: bool| #[trigger]
        call_ensures(K::eq, (&a, &b), equal) ==> equal == same(a, b)
}

/// Being the `same` is an equivalence.
pub open spec fn is_equivalence<K>(same: spec_fn(K, K) -> bool) -> bool {
    &&& forall|a: K| #[trigger] same(a, a)
    &&& forall|a: K, b: K| #[trigger] same(a, b) ==> same(b, a)
    &&& forall|a: K, b: K, c: K| #[trigger] same(a, b) && #[trigger] same(b, c) ==> same(a, c)
}

/// Two values are the same as far as the specification of their type's `==` says.
pub open spec fn equal_values<K: PartialEq>() -> spec_fn(K, K) -> bool {
    |a: K, b: K| a.eq_spec(&b)
}

/// Two strings are the same text.
pub open spec fn same_text() -> spec_fn(String, String) -> bool {
    |a: String, b: String| a@ == b@
}

/// The operator `==` of a type that obeys a specification decides what the specification says.
pub proof fn law_decides_equal_values<K: PartialEq>()
    requires
        K::obeys_eq_spec(),
    ensures
        decides::<K>(equal_values::<K>()),
{
}

/// The operator `==` of strings decides whether they are the same text.
pub proof fn law_decides_same_text()
    ensures
        decides::<String>(same_text()),
{
}

/// A relation is decided just if every comparison comes out as the relation says.
pub proof fn law_decided<K: PartialEq>(same: spec_fn(K, K) -> bool)
    ensures
        decides(same) <==> forall|a: K, b: K, equal: bool| #[trigger]
            call_ensures(K::eq, (&a, &b), equal) ==> (equal <==> same(a, b)),
{
}

} // verus!
