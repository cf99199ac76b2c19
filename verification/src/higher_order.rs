//! Functions that return functions: squaring, scaling, currying,
//! composition and partial application.

use vstd::prelude::*;

verus! {

/// Returns the squaring function: callable wherever the square fits in `i32`.
pub fn lambda_example() -> (f: impl Fn(i32) -> i32)
    ensures
        forall|x: i32| i32::MIN <= x * x <= i32::MAX ==> call_requires(f, (x,)),
        forall|x: i32, y: i32| call_ensures(f, (x,), y) ==> y == x * x,
{
    |x: i32| -> (y: i32)
        requires
            i32::MIN <= x * x <= i32::MAX,
        ensures
            y == x * x,
        { x * x }
}

/// Returns the function that multiplies its argument by `factor`.
pub fn closure_example(factor: i32) -> (f: impl Fn(i32) -> i32)
    ensures
        forall|x: i32| i32::MIN <= x * factor <= i32::MAX ==> call_requires(f, (x,)),
        forall|x: i32, y: i32| call_ensures(f, (x,), y) ==> y == x * factor,
{
    move |x: i32| -> (y: i32)
        requires
            i32::MIN <= x * factor <= i32::MAX,
        ensures
            y == x * factor,
        { x * factor }
}

/// Returns the function that adds `a` to its argument.
pub fn curry_add(a: i32) -> (f: impl Fn(i32) -> i32)
    ensures
        forall|b: i32| i32::MIN <= a + b <= i32::MAX ==> call_requires(f, (b,)),
        forall|b: i32, y: i32| call_ensures(f, (b,), y) ==> y == a + b,
{
    move |b: i32| -> (y: i32)
        requires
            i32::MIN <= a + b <= i32::MAX,
        ensures
            y == a + b,
        { a + b }
}

/// Composes two functions: the result maps `x` to `f(g(x))`.
pub fn compose<A, B, C, F, G>(f: F, g: G) -> (h: impl Fn(A) -> C) where
    F: Fn(B) -> C,
    G: Fn(A) -> B,

    ensures
        forall|x: A|
            (call_requires(g, (x,)) && forall|y: B|
                call_ensures(g, (x,), y) ==> call_requires(f, (y,))) ==> call_requires(h, (x,)),
        forall|x: A, z: C|
            call_ensures(h, (x,), z) ==> exists|y: B|
                call_ensures(g, (x,), y) && call_ensures(f, (y,), z),
{
    move |x: A| -> (z: C)
        requires
            call_requires(g, (x,)),
            forall|y: B| call_ensures(g, (x,), y) ==> call_requires(f, (y,)),
        ensures
            exists|y: B| call_ensures(g, (x,), y) && call_ensures(f, (y,), z),
        {
            let y = g(x);
            f(y)
        }
}

/// Fixes the first argument of a two-argument function.
pub fn partial_first<A, B, C, F>(f: F, a: A) -> (h: impl Fn(B) -> C) where
    F: Fn(A, B) -> C + Copy,
    A: Copy,

    ensures
        forall|b: B| call_requires(f, (a, b)) ==> call_requires(h, (b,)),
        forall|b: B, c: C| call_ensures(h, (b,), c) ==> call_ensures(f, (a, b), c),
{
    move |b: B| -> (c: C)
        requires
            call_requires(f, (a, b)),
        ensures
            call_ensures(f, (a, b), c),
        { f(a, b) }
}

} // verus!
