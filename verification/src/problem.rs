//! The problem contract: the two capability sets a concrete problem supplies.
//!
//! Scores are fixed-point fractions of [`SCALE`]: the value `SCALE` stands for
//! a perfect score of one, `0` for the worst. Both bound estimators of a state
//! return such a score.

use vstd::prelude::*;

verus! {

/// The score that stands for the value one; all scores are fractions of it.
pub const SCALE: u64 = 1_000_000;

/// The driver stops as soon as its running lower bound exceeds this score
/// (nine tenths of [`SCALE`]): a "good enough" anytime answer.
pub const GOOD_ENOUGH: u64 = 900_000;

/// An atomic transition applicable to a state. The engine treats moves as
/// opaque values; it only copies them and hands one back as its answer.
pub trait StateTransition: Sized {
    /// The sentinel standing for "no answer found yet".
    spec fn spec_default() -> Self;

    /// Produces the sentinel value.
    fn default_move() -> (r: Self)
        ensures
            r == Self::spec_default(),
    ;

    /// A true copy: the engine records the move that produced the best state
    /// found so far through this method.
    fn clone_move(&self) -> (r: Self)
        ensures
            r == *self,
    ;
}

/// A point of the search space, together with its transition function, its
/// legal moves, and its two pessimistic bound estimators.
///
/// The pruning logic assumes that the ceiling of a state bounds every score
/// reachable from that state or below; see `state_bounds_ok` and
/// `space_bounds_ok` for the exact statement of that assumption.
pub trait SearchState<T: StateTransition>: Sized {
    /// Model of transition application.
    spec fn spec_transition(self, t: T) -> Self;

    /// Model of the legal moves out of this state.
    spec fn spec_transitions(self) -> Seq<T>;

    /// Model of the ceiling: no state below this one scores better.
    spec fn spec_no_better_than(self) -> u64;

    /// Model of the floor: a score guaranteed achievable from this state.
    spec fn spec_no_worse_than(self) -> u64;

    /// Model of this state's own terminal value.
    spec fn spec_value(self) -> u64;

    /// Applies a move, returning the successor state and leaving this state
    /// unchanged.
    fn state_transition(&self, t: &T) -> (r: Self)
        ensures
            r == self.spec_transition(*t),
    ;

    /// Lists the legal moves out of this state; an empty list marks a
    /// terminal state.
    fn possible_transitions(&self) -> (r: Vec<T>)
        ensures
            r@ == self.spec_transitions(),
    ;

    /// A pessimistic upper bound on the best score reachable from this state
    /// or below; the engine prunes subtrees whose ceiling cannot beat its
    /// running lower bound.
    fn no_better_than(&self) -> (r: u64)
        ensures
            r == self.spec_no_better_than(),
    ;

    /// A pessimistic lower bound on the best score reachable from this state
    /// or below; the engine records it as an achieved candidate answer.
    fn no_worse_than(&self) -> (r: u64)
        ensures
            r == self.spec_no_worse_than(),
    ;

    /// The score of this state itself, for callers comparing destinations;
    /// the engine's own loop never consults it.
    fn value(&self) -> (r: u64)
        ensures
            r == self.spec_value(),
    ;
}

} // verus!
