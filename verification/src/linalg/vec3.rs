//! Vectors of three components.

use crate::linalg::scalar::Scalar;
use vstd::prelude::*;

verus! {

pub open spec fn sub3_spec<T: Scalar>(lhs: Seq<T>, rhs: Seq<T>) -> Seq<T> {
    seq![lhs[0].minus_spec(rhs[0]), lhs[1].minus_spec(rhs[1]), lhs[2].minus_spec(rhs[2])]
}

pub fn sub3<T: Scalar>(lhs: [T; 3], rhs: [T; 3]) -> (r: [T; 3])
    ensures
        r@ == sub3_spec(lhs@, rhs@),
{
    let r = [lhs[0].minus(rhs[0]), lhs[1].minus(rhs[1]), lhs[2].minus(rhs[2])];
    proof {
        assert(r@ =~= sub3_spec(lhs@, rhs@));
    }
    r
}

pub open spec fn add3_spec<T: Scalar>(lhs: Seq<T>, rhs: Seq<T>) -> Seq<T> {
    seq![lhs[0].plus_spec(rhs[0]), lhs[1].plus_spec(rhs[1]), lhs[2].plus_spec(rhs[2])]
}

pub fn add3<T: Scalar>(lhs: [T; 3], rhs: [T; 3]) -> (r: [T; 3])
    ensures
        r@ == add3_spec(lhs@, rhs@),
{
    let r = [lhs[0].plus(rhs[0]), lhs[1].plus(rhs[1]), lhs[2].plus(rhs[2])];
    proof {
        assert(r@ =~= add3_spec(lhs@, rhs@));
    }
    r
}

pub open spec fn scale3_spec<T: Scalar>(vector: Seq<T>, scale: T) -> Seq<T> {
    seq![
        scale.times_spec(vector[0]),
        scale.times_spec(vector[1]),
        scale.times_spec(vector[2]),
    ]
}

pub fn scale3<T: Scalar>(vector: [T; 3], scale: T) -> (r: [T; 3])
    ensures
        r@ == scale3_spec(vector@, scale),
{
    let r = [scale.times(vector[0]), scale.times(vector[1]), scale.times(vector[2])];
    proof {
        assert(r@ =~= scale3_spec(vector@, scale));
    }
    r
}

pub open spec fn dot3_spec<T: Scalar>(lhs: Seq<T>, rhs: Seq<T>) -> T {
    lhs[0].times_spec(rhs[0]).plus_spec(lhs[1].times_spec(rhs[1])).plus_spec(
        lhs[2].times_spec(rhs[2]),
    )
}

pub fn dot3<T: Scalar>(lhs: [T; 3], rhs: [T; 3]) -> (r: T)
    ensures
        r == dot3_spec(lhs@, rhs@),
{
    lhs[0].times(rhs[0]).plus(lhs[1].times(rhs[1])).plus(lhs[2].times(rhs[2]))
}

pub open spec fn cross3_spec<T: Scalar>(lhs: Seq<T>, rhs: Seq<T>) -> Seq<T> {
    seq![
        lhs[1].times_spec(rhs[2]).minus_spec(lhs[2].times_spec(rhs[1])),
        lhs[2].times_spec(rhs[0]).minus_spec(lhs[0].times_spec(rhs[2])),
        lhs[0].times_spec(rhs[1]).minus_spec(lhs[1].times_spec(rhs[0])),
    ]
}

pub fn cross3<T: Scalar>(lhs: [T; 3], rhs: [T; 3]) -> (r: [T; 3])
    ensures
        r@ == cross3_spec(lhs@, rhs@),
{
    let r = [
        lhs[1].times(rhs[2]).minus(lhs[2].times(rhs[1])),
        lhs[2].times(rhs[0]).minus(lhs[0].times(rhs[2])),
        lhs[0].times(rhs[1]).minus(lhs[1].times(rhs[0])),
    ];
    proof {
        assert(r@ =~= cross3_spec(lhs@, rhs@));
    }
    r
}

pub open spec fn zero3_spec<T: Scalar>() -> Seq<T> {
    seq![T::zero_spec(), T::zero_spec(), T::zero_spec()]
}

pub fn zero3<T: Scalar>() -> (r: [T; 3])
    ensures
        r@ == zero3_spec::<T>(),
{
    let r = [T::zero(), T::zero(), T::zero()];
    proof {
        assert(r@ =~= zero3_spec::<T>());
    }
    r
}

} // verus!
