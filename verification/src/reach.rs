//! Reachability along legal move sequences, and what the bound estimators are
//! assumed to say about it.
//!
//! Everything the engine promises is phrased over these notions: a *path* is a
//! sequence of moves, each legal at the state it is applied to; a value is
//! *achieved* when some path ends in a state whose floor equals it; a depth is
//! *dominated* by a value when no path within that depth ends above it.

use vstd::prelude::*;

use crate::problem::{SearchState, StateTransition, GOOD_ENOUGH};

verus! {

/// `p` is a sequence of moves, each legal at the state it is applied to,
/// starting from `s`.
pub open spec fn path_ok<S: SearchState<T>, T: StateTransition>(s: S, p: Seq<T>) -> bool
    decreases p.len(),
{
    if p.len() == 0 {
        true
    } else {
        s.spec_transitions().contains(p[0]) && path_ok(s.spec_transition(p[0]), p.skip(1))
    }
}

/// The state that the move sequence `p` leads to from `s`.
pub open spec fn path_end<S: SearchState<T>, T: StateTransition>(s: S, p: Seq<T>) -> S
    decreases p.len(),
{
    if p.len() == 0 {
        s
    } else {
        path_end(s.spec_transition(p[0]), p.skip(1))
    }
}

/// The ceiling reported at `s` bounds the floor of every state reachable from
/// `s`, including `s` itself (the empty path).
pub open spec fn state_bounds_ok<S: SearchState<T>, T: StateTransition>(s: S) -> bool {
    forall|p: Seq<T>|
        #[trigger] path_ok(s, p) ==> path_end(s, p).spec_no_worse_than()
            <= s.spec_no_better_than()
}

/// Every state reachable from `s` reports a sound ceiling. The pruning logic
/// assumes this of the states it searches; it does not verify it.
pub open spec fn space_bounds_ok<S: SearchState<T>, T: StateTransition>(s: S) -> bool {
    forall|p: Seq<T>| #[trigger] path_ok(s, p) ==> state_bounds_ok(path_end(s, p))
}

/// Some legal path of at most `d` moves ends in a state whose floor is `v`.
pub open spec fn achieves<S: SearchState<T>, T: StateTransition>(s: S, d: nat, v: u64) -> bool {
    exists|p: Seq<T>|
        p.len() <= d && #[trigger] path_ok(s, p) && path_end(s, p).spec_no_worse_than() == v
}

/// Some legal path, of any length, ends in a state whose floor is `v`.
pub open spec fn achievable<S: SearchState<T>, T: StateTransition>(s: S, v: u64) -> bool {
    exists|p: Seq<T>| #[trigger] path_ok(s, p) && path_end(s, p).spec_no_worse_than() == v
}

/// No legal path of at most `d` moves ends in a state whose floor beats `v`.
pub open spec fn dominated<S: SearchState<T>, T: StateTransition>(s: S, d: nat, v: u64) -> bool {
    forall|p: Seq<T>|
        p.len() <= d && #[trigger] path_ok(s, p) ==> path_end(s, p).spec_no_worse_than() <= v
}

/// No legal path of any length out of `s` ends in a state whose floor beats
/// `v`: the value dominates the entire space below `s`.
pub open spec fn dominated_all<S: SearchState<T>, T: StateTransition>(s: S, v: u64) -> bool {
    forall|p: Seq<T>| #[trigger] path_ok(s, p) ==> path_end(s, p).spec_no_worse_than() <= v
}

/// Every legal path out of `s` has at most `d` moves: the space below `s` is
/// finite, acyclic, and no deeper than `d`.
pub open spec fn depth_bounded<S: SearchState<T>, T: StateTransition>(s: S, d: nat) -> bool {
    forall|p: Seq<T>| #[trigger] path_ok(s, p) ==> p.len() <= d
}

/// Prepending a legal first move to a legal path gives a legal path, one move
/// longer, ending where the shorter path ends.
pub proof fn lemma_path_cons<S: SearchState<T>, T: StateTransition>(s: S, c: T, p: Seq<T>)
    requires
        s.spec_transitions().contains(c),
        path_ok(s.spec_transition(c), p),
    ensures
        path_ok(s, seq![c] + p),
        path_end(s, seq![c] + p) == path_end(s.spec_transition(c), p),
        (seq![c] + p).len() == p.len() + 1,
{
    let q = seq![c] + p;
    assert(q[0] == c);
    assert(q.skip(1) =~= p);
}

/// A sound space stays sound after one legal move.
pub proof fn lemma_space_bounds_step<S: SearchState<T>, T: StateTransition>(s: S, c: T)
    requires
        space_bounds_ok(s),
        s.spec_transitions().contains(c),
    ensures
        space_bounds_ok(s.spec_transition(c)),
{
    let child = s.spec_transition(c);
    assert forall|p: Seq<T>| #[trigger] path_ok(child, p) implies state_bounds_ok(
        path_end(child, p),
    ) by {
        lemma_path_cons(s, c, p);
        assert(path_ok(s, seq![c] + p));
    }
}

/// A sound space reports a sound ceiling at its root.
pub proof fn lemma_space_bounds_here<S: SearchState<T>, T: StateTransition>(s: S)
    requires
        space_bounds_ok(s),
    ensures
        state_bounds_ok(s),
{
    let p = Seq::<T>::empty();
    assert(path_ok(s, p));
    assert(path_end(s, p) == s);
}

/// A value achieved from a child within `d` moves is achieved from the parent
/// within `d + 1`.
pub proof fn lemma_achieves_step<S: SearchState<T>, T: StateTransition>(s: S, c: T, d: nat, v: u64)
    requires
        s.spec_transitions().contains(c),
        achieves(s.spec_transition(c), d, v),
    ensures
        achieves(s, d + 1, v),
{
    let child = s.spec_transition(c);
    let p = choose|p: Seq<T>|
        p.len() <= d && #[trigger] path_ok(child, p) && path_end(child, p).spec_no_worse_than()
            == v;
    lemma_path_cons(s, c, p);
    assert((seq![c] + p).len() <= d + 1 && path_ok(s, seq![c] + p) && path_end(
        s,
        seq![c] + p,
    ).spec_no_worse_than() == v);
}

/// A value achieved within some depth is achieved within any greater depth.
pub proof fn lemma_achieves_widen<S: SearchState<T>, T: StateTransition>(
    s: S,
    d1: nat,
    d2: nat,
    v: u64,
)
    requires
        achieves(s, d1, v),
        d1 <= d2,
    ensures
        achieves(s, d2, v),
{
    let p = choose|p: Seq<T>|
        p.len() <= d1 && #[trigger] path_ok(s, p) && path_end(s, p).spec_no_worse_than() == v;
    assert(p.len() <= d2 && path_ok(s, p) && path_end(s, p).spec_no_worse_than() == v);
}

/// A value achieved within some depth is achievable outright.
pub proof fn lemma_achieves_achievable<S: SearchState<T>, T: StateTransition>(s: S, d: nat, v: u64)
    requires
        achieves(s, d, v),
    ensures
        achievable(s, v),
{
    let p = choose|p: Seq<T>|
        p.len() <= d && #[trigger] path_ok(s, p) && path_end(s, p).spec_no_worse_than() == v;
    assert(path_ok(s, p) && path_end(s, p).spec_no_worse_than() == v);
}

/// Pruning soundness: in a sound space, a child whose ceiling does not beat a
/// bound holds no state, however deep, whose floor does.
pub proof fn lemma_pruning_sound<S: SearchState<T>, T: StateTransition>(
    s: S,
    c: T,
    bound: u64,
    p: Seq<T>,
)
    requires
        space_bounds_ok(s),
        s.spec_transitions().contains(c),
        s.spec_transition(c).spec_no_better_than() <= bound,
        path_ok(s.spec_transition(c), p),
    ensures
        path_end(s.spec_transition(c), p).spec_no_worse_than() <= bound,
{
    lemma_space_bounds_step(s, c);
    lemma_space_bounds_here(s.spec_transition(c));
}

/// Threshold early exit: once a depth is dominated by a bound, any state
/// within that depth scoring above the threshold forces the bound above the
/// threshold too.
pub proof fn lemma_dominated_meets_threshold<S: SearchState<T>, T: StateTransition>(
    s: S,
    d: nat,
    v: u64,
    p: Seq<T>,
)
    requires
        dominated(s, d, v),
        p.len() <= d,
        path_ok(s, p),
        path_end(s, p).spec_no_worse_than() > GOOD_ENOUGH,
    ensures
        v > GOOD_ENOUGH,
{
}

/// Exhaustion correctness, unbounded form: a value that dominates the entire
/// space below `s` and is achieved somewhere in it is exactly the best floor
/// anywhere below `s`.
pub proof fn lemma_exhausted_all_is_max<S: SearchState<T>, T: StateTransition>(s: S, v: u64)
    requires
        achievable(s, v),
        dominated_all(s, v),
    ensures
        forall|p: Seq<T>| #[trigger] path_ok(s, p) ==> path_end(s, p).spec_no_worse_than() <= v,
        exists|p: Seq<T>| #[trigger] path_ok(s, p) && path_end(s, p).spec_no_worse_than() == v,
{
}

/// Exhaustion correctness: a value both achieved within `d` moves and
/// dominating depth `d` is exactly the maximum floor achievable within `d`
/// moves — no state within `d` moves beats it, and some state attains it.
pub proof fn lemma_exhausted_is_max<S: SearchState<T>, T: StateTransition>(s: S, d: nat, v: u64)
    requires
        achieves(s, d, v),
        dominated(s, d, v),
    ensures
        forall|p: Seq<T>|
            p.len() <= d && #[trigger] path_ok(s, p) ==> path_end(s, p).spec_no_worse_than() <= v,
        exists|p: Seq<T>|
            p.len() <= d && #[trigger] path_ok(s, p) && path_end(s, p).spec_no_worse_than() == v,
{
}

} // verus!
