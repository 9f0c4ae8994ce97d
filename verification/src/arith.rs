//! The arithmetic that the library computes with, as its caller supplies it.
//!
//! The traits promise nothing: an implementation may return any value.  A contract that depends
//! on arithmetic is stated for every model that the implementation follows, that is, for every
//! choice of mathematical functions whose values the implementation returns.

use crate::float::{F32, F64};
use vstd::prelude::*;

verus! {

/// Single-precision operations.
pub trait Arith32 {
    /// `a + b`
    fn sum(&self, a: F32, b: F32) -> F32;

    /// `a * b`
    fn product(&self, a: F32, b: F32) -> F32;

    /// `a / b`
    fn quotient(&self, a: F32, b: F32) -> F32;

    /// The square root of `a`.
    fn root(&self, a: F32) -> F32;

    /// The number nearest to the count `n`.
    fn from_count(&self, n: usize) -> F32;
}

/// Double-precision operations.
pub trait Arith64 {
    /// `a + b`
    fn sum(&self, a: F64, b: F64) -> F64;

    /// `a - b`
    fn difference(&self, a: F64, b: F64) -> F64;

    /// `a * b`
    fn product(&self, a: F64, b: F64) -> F64;

    /// `a / b`
    fn quotient(&self, a: F64, b: F64) -> F64;

    /// The number nearest to the count `n`.
    fn from_count(&self, n: usize) -> F64;

    /// `a` with its fraction dropped, as a count.
    fn to_count(&self, a: F64) -> usize;

    /// `a` as decimal text with the given number of digits after the point.
    fn fixed(&self, a: F64, digits: usize) -> String;
}

/// The functions that a single-precision implementation computes.
pub struct Model32 {
    pub sum: spec_fn(F32, F32) -> F32,
    pub product: spec_fn(F32, F32) -> F32,
    pub quotient: spec_fn(F32, F32) -> F32,
    pub root: spec_fn(F32) -> F32,
    pub from_count: spec_fn(usize) -> F32,
}

/// The functions that a double-precision implementation computes.
pub struct Model64 {
    pub sum: spec_fn(F64, F64) -> F64,
    pub difference: spec_fn(F64, F64) -> F64,
    pub product: spec_fn(F64, F64) -> F64,
    pub quotient: spec_fn(F64, F64) -> F64,
    pub from_count: spec_fn(usize) -> F64,
    pub to_count: spec_fn(F64) -> usize,
    pub fixed: spec_fn(F64, usize) -> Seq<char>,
}

/// Whatever the operations of `arith` return is what the functions of `m` say.
pub open spec fn follows_32<A: Arith32>(arith: &A, m: Model32) -> bool {
    &&& forall|a: F32, b: F32, r: F32| #[trigger]
        call_ensures(A::sum, (arith, a, b), r) ==> r == (m.sum)(a, b)
    &&& forall|a: F32, b: F32, r: F32| #[trigger]
        call_ensures(A::product, (arith, a, b), r) ==> r == (m.product)(a, b)
    &&& forall|a: F32, b: F32, r: F32| #[trigger]
        call_ensures(A::quotient, (arith, a, b), r) ==> r == (m.quotient)(a, b)
    &&& forall|a: F32, r: F32| #[trigger]
        call_ensures(A::root, (arith, a), r) ==> r == (m.root)(a)
    &&& forall|n: usize, r: F32| #[trigger]
        call_ensures(A::from_count, (arith, n), r) ==> r == (m.from_count)(n)
}

/// Whatever the operations of `arith` return is what the functions of `m` say.
pub open spec fn follows_64<A: Arith64>(arith: &A, m: Model64) -> bool {
    &&& forall|a: F64, b: F64, r: F64| #[trigger]
        call_ensures(A::sum, (arith, a, b), r) ==> r == (m.sum)(a, b)
    &&& forall|a: F64, b: F64, r: F64| #[trigger]
        call_ensures(A::difference, (arith, a, b), r) ==> r == (m.difference)(a, b)
    &&& forall|a: F64, b: F64, r: F64| #[trigger]
        call_ensures(A::product, (arith, a, b), r) ==> r == (m.product)(a, b)
    &&& forall|a: F64, b: F64, r: F64| #[trigger]
        call_ensures(A::quotient, (arith, a, b), r) ==> r == (m.quotient)(a, b)
    &&& forall|n: usize, r: F64| #[trigger]
        call_ensures(A::from_count, (arith, n), r) ==> r == (m.from_count)(n)
    &&& forall|a: F64, r: usize| #[trigger]
        call_ensures(A::to_count, (arith, a), r) ==> r == (m.to_count)(a)
    &&& forall|a: F64, digits: usize, r: String| #[trigger]
        call_ensures(A::fixed, (arith, a, digits), r) ==> r@ == (m.fixed)(a, digits)
}

/// The operations of `arith` are functions: the same operands give the same result.
pub open spec fn computes_functions_32<A: Arith32>(arith: &A) -> bool {
    &&& forall|a: F32, b: F32, r: F32, s: F32| #[trigger]
        call_ensures(A::sum, (arith, a, b), r)
            && #[trigger] call_ensures(A::sum, (arith, a, b), s) ==> r == s
    &&& forall|a: F32, b: F32, r: F32, s: F32| #[trigger]
        call_ensures(A::product, (arith, a, b), r)
            && #[trigger] call_ensures(A::product, (arith, a, b), s) ==> r == s
    &&& forall|a: F32, b: F32, r: F32, s: F32| #[trigger]
        call_ensures(A::quotient, (arith, a, b), r)
            && #[trigger] call_ensures(A::quotient, (arith, a, b), s) ==> r == s
    &&& forall|a: F32, r: F32, s: F32| #[trigger]
        call_ensures(A::root, (arith, a), r)
            && #[trigger] call_ensures(A::root, (arith, a), s) ==> r == s
    &&& forall|n: usize, r: F32, s: F32| #[trigger]
        call_ensures(A::from_count, (arith, n), r)
            && #[trigger] call_ensures(A::from_count, (arith, n), s) ==> r == s
}

/// The operations of `arith` are functions: the same operands give the same result.
pub open spec fn computes_functions_64<A: Arith64>(arith: &A) -> bool {
    &&& forall|a: F64, b: F64, r: F64, s: F64| #[trigger]
        call_ensures(A::sum, (arith, a, b), r)
            && #[trigger] call_ensures(A::sum, (arith, a, b), s) ==> r == s
    &&& forall|a: F64, b: F64, r: F64, s: F64| #[trigger]
        call_ensures(A::difference, (arith, a, b), r)
            && #[trigger] call_ensures(A::difference, (arith, a, b), s) ==> r == s
    &&& forall|a: F64, b: F64, r: F64, s: F64| #[trigger]
        call_ensures(A::product, (arith, a, b), r)
            && #[trigger] call_ensures(A::product, (arith, a, b), s) ==> r == s
    &&& forall|a: F64, b: F64, r: F64, s: F64| #[trigger]
        call_ensures(A::quotient, (arith, a, b), r)
            && #[trigger] call_ensures(A::quotient, (arith, a, b), s) ==> r == s
    &&& forall|n: usize, r: F64, s: F64| #[trigger]
        call_ensures(A::from_count, (arith, n), r)
            && #[trigger] call_ensures(A::from_count, (arith, n), s) ==> r == s
    &&& forall|a: F64, r: usize, s: usize| #[trigger]
        call_ensures(A::to_count, (arith, a), r)
            && #[trigger] call_ensures(A::to_count, (arith, a), s) ==> r == s
    &&& forall|a: F64, digits: usize, r: String, s: String| #[trigger]
        call_ensures(A::fixed, (arith, a, digits), r)
            && #[trigger] call_ensures(A::fixed, (arith, a, digits), s) ==> r@ == s@
}

/// An arithmetic whose operations are functions follows a model: the one of those functions.
pub proof fn law_functions_follow_a_model_32<A: Arith32>(arith: &A)
    requires
        computes_functions_32(arith),
    ensures
        exists|m: Model32| follows_32(arith, m),
{
    let m = Model32 {
        sum: |a: F32, b: F32| (choose|r: F32| call_ensures(A::sum, (arith, a, b), r)),
        product: |a: F32, b: F32| (choose|r: F32| call_ensures(A::product, (arith, a, b), r)),
        quotient: |a: F32, b: F32| (choose|r: F32| call_ensures(A::quotient, (arith, a, b), r)),
        root: |a: F32| (choose|r: F32| call_ensures(A::root, (arith, a), r)),
        from_count: |n: usize| (choose|r: F32| call_ensures(A::from_count, (arith, n), r)),
    };
    assert(follows_32(arith, m));
}

/// An arithmetic whose operations are functions follows a model: the one of those functions.
pub proof fn law_functions_follow_a_model_64<A: Arith64>(arith: &A)
    requires
        computes_functions_64(arith),
    ensures
        exists|m: Model64| follows_64(arith, m),
{
    let m = Model64 {
        sum: |a: F64, b: F64| (choose|r: F64| call_ensures(A::sum, (arith, a, b), r)),
        difference: |a: F64, b: F64| (choose|r: F64| call_ensures(A::difference, (arith, a, b), r)),
        product: |a: F64, b: F64| (choose|r: F64| call_ensures(A::product, (arith, a, b), r)),
        quotient: |a: F64, b: F64| (choose|r: F64| call_ensures(A::quotient, (arith, a, b), r)),
        from_count: |n: usize| (choose|r: F64| call_ensures(A::from_count, (arith, n), r)),
        to_count: |a: F64| (choose|r: usize| call_ensures(A::to_count, (arith, a), r)),
        fixed: |a: F64, digits: usize|
            (choose|r: String| call_ensures(A::fixed, (arith, a, digits), r))@,
    };
    assert(follows_64(arith, m));
}

} // verus!
