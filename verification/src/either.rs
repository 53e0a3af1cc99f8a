//! A two-variant tagged union, used by the pool to hand a value back to the
//! caller when an insertion cannot be carried out.

use vstd::prelude::*;

verus! {

/// Holds one of two alternatives.
#[derive(Debug, Clone, Copy, Hash, PartialEq, Eq)]
pub enum Either<L, R> {
    Left(L),
    Right(R),
}

impl<L, R> Either<L, R> {
    /// A reference to the left alternative, if this is the left one.
    pub fn left(&self) -> (r: Option<&L>)
        ensures
            self is Left <==> r is Some,
            r matches Some(v) ==> *v == self->Left_0,
    {
        match self {
            Either::Left(v) => Some(v),
            Either::Right(_) => None,
        }
    }

    /// A reference to the right alternative, if this is the right one.
    pub fn right(&self) -> (r: Option<&R>)
        ensures
            self is Right <==> r is Some,
            r matches Some(v) ==> *v == self->Right_0,
    {
        match self {
            Either::Left(_) => None,
            Either::Right(v) => Some(v),
        }
    }

    /// The left alternative by value, if this is the left one.
    pub fn take_left(self) -> (r: Option<L>)
        ensures
            self is Left <==> r is Some,
            r matches Some(v) ==> v == self->Left_0,
    {
        match self {
            Either::Left(v) => Some(v),
            Either::Right(_) => None,
        }
    }

    /// The right alternative by value, if this is the right one.
    pub fn take_right(self) -> (r: Option<R>)
        ensures
            self is Right <==> r is Some,
            r matches Some(v) ==> v == self->Right_0,
    {
        match self {
            Either::Left(_) => None,
            Either::Right(v) => Some(v),
        }
    }
}

} // verus!
