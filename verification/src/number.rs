//! The numbers that counters, weights and scores are made of.
use crate::time::Duration;
use vstd::prelude::*;

verus! {

/// What the scoring rules ask of a number.
///
/// The rules add, subtract, multiply, divide and compare, and never look inside a number, so the
/// same verified rules serve a fixed-point number such as [`crate::Fixed`] and the host's own
/// floating-point type. Each method has a companion whose name ends in `_spec`: it is the
/// function that the method computes, and every contract of the crate is stated over these
/// companions. An implementation owes no more than that: no law of arithmetic is taken for
/// granted, neither that addition associates nor that every two numbers compare. Where the
/// implementation is ordinary Rust, as it is for a floating-point type, its companions are
/// ordinary functions, and nothing is proved of them.
pub trait Number: Copy + Sized {
    /// The number that counts `n` things.
    spec fn of_count_spec(n: usize) -> Self;

    /// The length of `span` in seconds.
    spec fn seconds_spec(span: Duration) -> Self;

    /// The sum.
    spec fn plus_spec(self, rhs: Self) -> Self;

    /// The difference.
    spec fn minus_spec(self, rhs: Self) -> Self;

    /// The product.
    spec fn times_spec(self, rhs: Self) -> Self;

    /// The quotient.
    spec fn over_spec(self, rhs: Self) -> Self;

    /// Whether the left number is less than the right one.
    spec fn below_spec(self, rhs: Self) -> bool;

    /// Whether the two numbers are equal as numbers.
    spec fn same_spec(self, rhs: Self) -> bool;

    fn of_count(n: usize) -> (r: Self)
        ensures
            r == Self::of_count_spec(n),
    ;

    fn seconds(span: Duration) -> (r: Self)
        ensures
            r == Self::seconds_spec(span),
    ;

    fn plus(self, rhs: Self) -> (r: Self)
        ensures
            r == self.plus_spec(rhs),
    ;

    fn minus(self, rhs: Self) -> (r: Self)
        ensures
            r == self.minus_spec(rhs),
    ;

    fn times(self, rhs: Self) -> (r: Self)
        ensures
            r == self.times_spec(rhs),
    ;

    fn over(self, rhs: Self) -> (r: Self)
        ensures
            r == self.over_spec(rhs),
    ;

    fn below(self, rhs: Self) -> (r: bool)
        ensures
            r == self.below_spec(rhs),
    ;

    fn same(self, rhs: Self) -> (r: bool)
        ensures
            r == self.same_spec(rhs),
    ;
}

/// Zero.
pub open spec fn zero<N: Number>() -> N {
    N::of_count_spec(0)
}

/// One.
pub open spec fn one<N: Number>() -> N {
    N::of_count_spec(1)
}

/// `x * x`.
pub open spec fn squared<N: Number>(x: N) -> N {
    x.times_spec(x)
}

/// `x`, or `cap` where `x` is not below `cap`.
pub open spec fn at_most<N: Number>(x: N, cap: N) -> N {
    if x.below_spec(cap) {
        x
    } else {
        cap
    }
}

/// `x + 1`, or `cap` where that is above `cap`.
pub open spec fn bumped<N: Number>(x: N, cap: N) -> N {
    if cap.below_spec(x.plus_spec(one())) {
        cap
    } else {
        x.plus_spec(one())
    }
}

/// `x * factor`, or zero where that is below `floor`.
pub open spec fn decayed<N: Number>(x: N, factor: N, floor: N) -> N {
    if x.times_spec(factor).below_spec(floor) {
        zero()
    } else {
        x.times_spec(factor)
    }
}

/// `x`, or `cap` where `x` is above `cap`.
pub open spec fn clipped<N: Number>(x: N, cap: N) -> N {
    if cap.below_spec(x) {
        cap
    } else {
        x
    }
}

/// Of two numbers at most one is below the other, and none is below itself.
///
/// This holds of floating-point numbers as well: nothing is below what is not a number.
pub open spec fn asymmetric<N: Number>() -> bool {
    forall|x: N, y: N| #[trigger] x.below_spec(y) ==> !y.below_spec(x)
}

/// What is weighted by a number that is not positive lowers a score: a square and a surplus are then
/// not positive, nor is nothing at all, and to add such a number takes no number over a bound.
///
/// This holds of floating-point numbers as well: rounding keeps the order, and what is not a number
/// is over no bound.
pub open spec fn penalties_lower<N: Number>() -> bool {
    &&& forall|bound: N, x: N, y: N|
        !bound.below_spec(x) && !zero::<N>().below_spec(y)
            ==> !#[trigger] bound.below_spec(x.plus_spec(y))
    &&& forall|x: N, weight: N|
        !zero::<N>().below_spec(weight) ==> !zero::<N>().below_spec(
            #[trigger] squared(x).times_spec(weight),
        )
    &&& forall|x: N, y: N, weight: N|
        y.below_spec(x) && !zero::<N>().below_spec(weight) ==> !zero::<N>().below_spec(
            #[trigger] x.minus_spec(y).times_spec(weight),
        )
    &&& forall|weight: N| !zero::<N>().below_spec(#[trigger] zero::<N>().times_spec(weight))
}

/// To add a square makes no number smaller.
///
/// This holds of floating-point numbers as well: rounding keeps the order.
pub open spec fn squares_raise<N: Number>() -> bool {
    forall|x: N, y: N| !(#[trigger] x.plus_spec(squared(y))).below_spec(x)
}

/// What is not over `low` is not over `high`, unless `high` is below `low`.
///
/// This holds of all floating-point numbers `low` and `high` but where `low` is not a number.
pub open spec fn bounds_carry_over<N: Number>(low: N, high: N) -> bool {
    high.below_spec(low) || forall|x: N|
        !low.below_spec(x) ==> !#[trigger] high.below_spec(x)
}

/// Computes [`at_most`].
pub(crate) fn limit<N: Number>(x: N, cap: N) -> (r: N)
    ensures
        r == at_most(x, cap),
{
    if x.below(cap) {
        x
    } else {
        cap
    }
}

/// Computes [`bumped`].
pub(crate) fn bump<N: Number>(x: N, cap: N) -> (r: N)
    ensures
        r == bumped(x, cap),
{
    let next = x.plus(N::of_count(1));
    if cap.below(next) {
        cap
    } else {
        next
    }
}

/// Computes [`decayed`].
pub(crate) fn decay<N: Number>(x: N, factor: N, floor: N) -> (r: N)
    ensures
        r == decayed(x, factor, floor),
{
    let next = x.times(factor);
    if next.below(floor) {
        N::of_count(0)
    } else {
        next
    }
}

/// Computes [`clipped`].
pub(crate) fn clip<N: Number>(x: N, cap: N) -> (r: N)
    ensures
        r == clipped(x, cap),
{
    if cap.below(x) {
        cap
    } else {
        x
    }
}

} // verus!
