//! Module for puzzle move generics and related functionality

use vstd::prelude::*;

verus! {

/// Enum for representing the cancellation of two moves.
/// See [`cancel`](Move::cancel).
#[derive(Debug, Eq, PartialEq)]
pub enum Cancellation<M: Move> {
    /// The moves cancelled completely.
    ///
    /// e.g. `R R'` cancels completely
    NoMove,
    /// The moves cancelled into one move.
    ///
    /// e.g. `R R` cancels into `R2`
    OneMove(M),
    /// The moves didn't cancel
    ///
    /// e.g. `R U` stays as `R U` when cancelling
    TwoMove(M, M),
}

/// Type of move that can be made to a puzzle.
pub trait Move: Eq + Sized {
    /// The inverse of the move.
    spec fn spec_inverse(self) -> Self;

    /// Whether the two moves can be swapped when adjacent.
    spec fn spec_commutes_with(&self, b: &Self) -> bool;

    /// What the move followed by `b` cancels to.
    spec fn spec_cancel(self, b: Self) -> Cancellation<Self>;

    /// Invert a move.
    ///
    /// If `X` is a moves and `X^{-1}` is its inverse and `o` is composition, then
    /// `X o X^{-1} = X^{-1} o X = e` where `e` is a move which does nothing.
    fn inverse(self) -> (r: Self)
        ensures
            r == self.spec_inverse(),
    ;

    /// Returns whether the two moves commute, i.e. can be swapped when adjacent.
    ///
    /// If A and B are moves, then `A.commutes(B)` iff
    /// `A B = B A`
    fn commutes_with(&self, b: &Self) -> (r: bool)
        ensures
            r == self.spec_commutes_with(b),
    ;

    /// Return the cancellation of two moves.
    ///
    /// It is assumed that group axioms hold when applying cancellations.
    fn cancel(self, b: Self) -> (r: Cancellation<Self>)
        ensures
            r == self.spec_cancel(b),
    ;
}

/// The inverse of a sequence of moves: the inverses of the moves, last move first.
pub open spec fn inverse_sequence<M: Move>(moves: Seq<M>) -> Seq<M> {
    Seq::new(moves.len(), |i: int| moves[moves.len() - 1 - i].spec_inverse())
}

/// A sequence of moves (also known as an algorithm) for some specific type of move.
#[derive(Debug, Eq, PartialEq)]
pub struct MoveSequence<M: Move>(pub Vec<M>);

impl<M: Move> MoveSequence<M> {
    /// Invert a sequence of moves.
    ///
    /// If `X` is a sequence of moves and `X^{-1}` is its inverse and `o` is composition, then
    /// `X o X^{-1} = X^{-1} o X = e` where `e` is the empty sequence.
    pub fn inverse(self) -> (r: Self)
        ensures
            r.0@ == inverse_sequence(self.0@),
    {
        let ghost moves = self.0@;
        let mut rest = self.0;
        let mut inverted: Vec<M> = Vec::new();
        while rest.len() > 0
            invariant
                rest@ == moves.take(rest.len() as int),
                inverted.len() == moves.len() - rest.len(),
                forall|i: int|
                    0 <= i < inverted.len() ==> inverted[i] == moves[moves.len() - 1
                        - i].spec_inverse(),
            decreases rest.len(),
        {
            let m = rest.pop().unwrap();
            inverted.push(m.inverse());
        }
        assert(inverted@ =~= inverse_sequence(moves));
        MoveSequence(inverted)
    }
}

} // verus!
