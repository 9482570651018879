//! The search engine: a recursive bounded branch-and-bound search and the
//! iterative-deepening driver around it.

use vstd::prelude::*;

use crate::problem::{SearchState, StateTransition, GOOD_ENOUGH};
use crate::reach::{
    achievable, achieves, depth_bounded, dominated, dominated_all, lemma_achieves_achievable,
    lemma_achieves_step, lemma_achieves_widen, lemma_path_cons, lemma_pruning_sound,
    lemma_space_bounds_step, path_end, path_ok, space_bounds_ok,
};

verus! {

/// `x` is one legal move away from `s`.
pub open spec fn is_child<S: SearchState<T>, T: StateTransition>(s: S, x: S) -> bool {
    exists|c: T| s.spec_transitions().contains(c) && x == #[trigger] s.spec_transition(c)
}

/// `x` is the state of one of the gathered `(ceiling, state)` pairs.
spec fn in_kids<S>(ks: Seq<(u64, S)>, x: S) -> bool {
    exists|a: int| 0 <= a < ks.len() && (#[trigger] ks[a]).1 == x
}

/// Recursive bounded search below `s`, attributing every improvement to the
/// top-level move `t`.
///
/// `lb` is the running lower bound of the whole search and `best` the move
/// credited with it; both are threaded by exclusive access through the entire
/// call tree. The floor of `s` is recorded first, even at the depth limit;
/// children are then pruned against the updated bound, ordered ascending by
/// ceiling (worst first), and searched with one move less of depth.
///
/// Returns whether the subtree was searched exhaustively: at the depth limit,
/// only a terminal state counts as exhausted. Whatever is returned, the final
/// bound dominates the whole depth — every state within `depth_left` moves
/// was either visited or pruned under a ceiling the bound already met — and
/// when the space below `s` is in fact no deeper than `depth_left`, the
/// search is guaranteed to report it exhausted. Conversely, an exhausted
/// report means the bound dominates the entire space below `s`, to any depth:
/// everything not explored sat under a pruned ceiling.
#[verifier::loop_isolation(false)]
pub fn a_star<S, T>(t: &T, s: &S, depth_left: u32, lb: &mut u64, best: &mut T) -> (r: bool) where
    S: SearchState<T>,
    T: StateTransition,

    requires
        space_bounds_ok(*s),
    ensures
        *old(lb) <= *final(lb),
        s.spec_no_worse_than() <= *final(lb),
        *final(lb) == *old(lb) ==> *final(best) == *old(best),
        *final(lb) > *old(lb) ==> *final(best) == *t && achieves(
            *s,
            depth_left as nat,
            *final(lb),
        ),
        dominated(*s, depth_left as nat, *final(lb)),
        r ==> dominated_all(*s, *final(lb)),
        depth_bounded(*s, depth_left as nat) ==> r,
        depth_left == 0 ==> (r <==> s.spec_transitions().len() == 0),
    decreases depth_left,
{
    let ghost lb0 = *lb;
    let ghost best0 = *best;
    let h = s.no_worse_than();
    if h > *lb {
        *lb = h;
        *best = t.clone_move();
    }
    let ghost lb1 = *lb;
    let ghost best1 = *best;
    proof {
        let e = Seq::<T>::empty();
        assert(path_ok(*s, e));
        assert(path_end(*s, e) == *s);
        if *lb > lb0 {
            assert(achieves(*s, depth_left as nat, *lb));
        }
    }
    let step_choices = s.possible_transitions();
    if depth_left > 0 {
        let mut kids: Vec<(u64, S)> = Vec::new();
        let mut i: usize = 0;
        while i < step_choices.len()
            invariant
                i <= step_choices.len(),
                *lb == lb1,
                *best == best1,
                forall|a: int|
                    0 <= a < kids@.len() ==> is_child(*s, (#[trigger] kids@[a]).1)
                        && kids@[a].0 == kids@[a].1.spec_no_better_than() && kids@[a].0 > lb1,
                forall|a: int, b: int|
                    #![trigger kids@[a], kids@[b]]
                    0 <= a <= b < kids@.len() ==> kids@[a].0 <= kids@[b].0,
                forall|j: int|
                    0 <= j < i ==> (#[trigger] s.spec_transition(
                        step_choices@[j],
                    )).spec_no_better_than() <= lb1 || in_kids(
                        kids@,
                        s.spec_transition(step_choices@[j]),
                    ),
            decreases step_choices@.len() - i,
        {
            let child = s.state_transition(&step_choices[i]);
            let key = child.no_better_than();
            proof {
                assert(s.spec_transitions()[i as int] == step_choices@[i as int]);
                assert(s.spec_transitions().contains(step_choices@[i as int]));
            }
            if key > *lb {
                let mut pos: usize = 0;
                while pos < kids.len() && kids[pos].0 <= key
                    invariant
                        pos <= kids@.len(),
                        forall|a: int| 0 <= a < pos ==> (#[trigger] kids@[a]).0 <= key,
                    decreases kids@.len() - pos,
                {
                    pos += 1;
                }
                let ghost ksnap = kids@;
                kids.insert(pos, (key, child));
                proof {
                    ksnap.insert_ensures(pos as int, (key, child));
                    assert forall|j: int| 0 <= j < i + 1 implies (#[trigger] s.spec_transition(
                        step_choices@[j],
                    )).spec_no_better_than() <= lb1 || in_kids(
                        kids@,
                        s.spec_transition(step_choices@[j]),
                    ) by {
                        let x = s.spec_transition(step_choices@[j]);
                        if j == i {
                            assert(kids@[pos as int].1 == x);
                            assert(in_kids(kids@, x));
                        } else if x.spec_no_better_than() > lb1 {
                            assert(in_kids(ksnap, x));
                            let a = choose|a: int| 0 <= a < ksnap.len() && (#[trigger] ksnap[a]).1
                                == x;
                            if a < pos {
                                assert(kids@[a].1 == x);
                            } else {
                                assert(kids@[a + 1].1 == x);
                            }
                            assert(in_kids(kids@, x));
                        }
                    }
                }
            }
            i += 1;
        }
        let ghost kidsg = kids@;
        let mut completed = true;
        let mut k: usize = 0;
        while k < kids.len()
            invariant
                k <= kids@.len(),
                kids@ == kidsg,
                lb1 <= *lb,
                *lb == lb0 ==> *best == best0,
                *lb > lb0 ==> *best == *t && achieves(*s, depth_left as nat, *lb),
                forall|a: int|
                    0 <= a < k ==> dominated(
                        (#[trigger] kids@[a]).1,
                        (depth_left - 1) as nat,
                        *lb,
                    ),
                completed ==> forall|a: int|
                    0 <= a < k ==> dominated_all((#[trigger] kids@[a]).1, *lb),
                depth_bounded(*s, depth_left as nat) ==> completed,
            decreases kids@.len() - k,
        {
            let ghost lb_pre = *lb;
            proof {
                let c = choose|c: T|
                    s.spec_transitions().contains(c) && kids@[k as int].1 == s.spec_transition(c);
                lemma_space_bounds_step(*s, c);
            }
            let pair = &kids[k];
            let sub = a_star(t, &pair.1, depth_left - 1, lb, best);
            if !sub {
                completed = false;
            }
            proof {
                if *lb > lb_pre {
                    let c = choose|c: T|
                        s.spec_transitions().contains(c) && kids@[k as int].1 == s.spec_transition(
                            c,
                        );
                    lemma_achieves_step(*s, c, (depth_left - 1) as nat, *lb);
                }
                assert forall|a: int| 0 <= a < k + 1 implies dominated(
                    (#[trigger] kids@[a]).1,
                    (depth_left - 1) as nat,
                    *lb,
                ) by {
                    if a < k {
                        assert(dominated(kids@[a].1, (depth_left - 1) as nat, lb_pre));
                        assert forall|p: Seq<T>|
                            p.len() <= (depth_left - 1) as nat && #[trigger] path_ok(
                                kids@[a].1,
                                p,
                            ) implies path_end(kids@[a].1, p).spec_no_worse_than() <= *lb by {}
                    }
                }
                if completed {
                    assert forall|a: int| 0 <= a < k + 1 implies dominated_all(
                        (#[trigger] kids@[a]).1,
                        *lb,
                    ) by {
                        if a < k {
                            assert(dominated_all(kids@[a].1, lb_pre));
                            assert forall|p: Seq<T>| #[trigger] path_ok(
                                kids@[a].1,
                                p,
                            ) implies path_end(kids@[a].1, p).spec_no_worse_than() <= *lb by {}
                        }
                    }
                }
                if depth_bounded(*s, depth_left as nat) {
                    // the child's own subtree is at least one move shallower
                    let c = choose|c: T|
                        s.spec_transitions().contains(c) && kids@[k as int].1 == s.spec_transition(
                            c,
                        );
                    assert forall|q: Seq<T>| #[trigger] path_ok(
                        kids@[k as int].1,
                        q,
                    ) implies q.len() <= (depth_left - 1) as nat by {
                        lemma_path_cons(*s, c, q);
                        assert(path_ok(*s, seq![c] + q));
                    }
                    assert(depth_bounded(kids@[k as int].1, (depth_left - 1) as nat));
                    assert(sub);
                }
            }
            k += 1;
        }
        proof {
            assert forall|p: Seq<T>|
                p.len() <= depth_left as nat && #[trigger] path_ok(*s, p) implies path_end(
                *s,
                p,
            ).spec_no_worse_than() <= *lb by {
                    if p.len() == 0 {
                        assert(path_end(*s, p) == *s);
                    } else {
                        let c = p[0];
                        let rest = p.skip(1);
                        let child = s.spec_transition(c);
                        assert(s.spec_transitions().contains(c));
                        assert(path_ok(child, rest));
                        assert(path_end(*s, p) == path_end(child, rest));
                        let j = choose|j: int|
                            0 <= j < s.spec_transitions().len() && s.spec_transitions()[j] == c;
                        assert(step_choices@[j] == c);
                        if child.spec_no_better_than() <= lb1 {
                            lemma_pruning_sound(*s, c, lb1, rest);
                        } else {
                            assert(in_kids(kids@, child));
                            let a = choose|a: int|
                                0 <= a < kids@.len() && (#[trigger] kids@[a]).1 == child;
                            assert(dominated(kids@[a].1, (depth_left - 1) as nat, *lb));
                            assert(rest.len() <= (depth_left - 1) as nat);
                        }
                    }
            }
            assert(dominated(*s, depth_left as nat, *lb));
            if completed {
                assert forall|p: Seq<T>| #[trigger] path_ok(*s, p) implies path_end(
                    *s,
                    p,
                ).spec_no_worse_than() <= *lb by {
                    if p.len() == 0 {
                        assert(path_end(*s, p) == *s);
                    } else {
                        let c = p[0];
                        let rest = p.skip(1);
                        let child = s.spec_transition(c);
                        assert(s.spec_transitions().contains(c));
                        assert(path_ok(child, rest));
                        assert(path_end(*s, p) == path_end(child, rest));
                        let j = choose|j: int|
                            0 <= j < s.spec_transitions().len() && s.spec_transitions()[j] == c;
                        assert(step_choices@[j] == c);
                        if child.spec_no_better_than() <= lb1 {
                            lemma_pruning_sound(*s, c, lb1, rest);
                        } else {
                            assert(in_kids(kids@, child));
                            let a = choose|a: int|
                                0 <= a < kids@.len() && (#[trigger] kids@[a]).1 == child;
                            assert(dominated_all(kids@[a].1, *lb));
                        }
                    }
                }
                assert(dominated_all(*s, *lb));
            }
        }
        completed
    } else {
        proof {
            assert forall|p: Seq<T>|
                p.len() <= 0 && #[trigger] path_ok(*s, p) implies path_end(
                *s,
                p,
            ).spec_no_worse_than() <= *lb by {
                assert(path_end(*s, p) == *s);
            }
            assert(dominated(*s, 0nat, *lb));
            if step_choices@.len() == 0 {
                // a terminal state has no legal path but the empty one
                assert forall|p: Seq<T>| #[trigger] path_ok(*s, p) implies path_end(
                    *s,
                    p,
                ).spec_no_worse_than() <= *lb by {
                    if p.len() != 0 {
                        assert(s.spec_transitions().contains(p[0]));
                        assert(false);
                    }
                    assert(path_end(*s, p) == *s);
                }
                assert(dominated_all(*s, *lb));
            }
            if step_choices@.len() > 0 {
                // a single legal move is a path of length one, so the depth
                // of the space is not bounded by zero
                let c0 = s.spec_transitions()[0];
                assert(s.spec_transitions().contains(c0));
                assert(seq![c0][0] == c0);
                assert(seq![c0].skip(1) =~= Seq::<T>::empty());
                assert(path_ok(s.spec_transition(c0), Seq::<T>::empty()));
                assert(path_ok(*s, seq![c0]));
                assert(seq![c0].len() == 1);
            }
        }
        step_choices.len() == 0
    }
}

/// The iterative-deepening driver: searches each top-level move at ever
/// greater depth limits, carrying one running lower bound and best move across
/// the whole search, and returns the best move as soon as the bound beats
/// [`GOOD_ENOUGH`] or a search reports its depth exhausted.
///
/// The answer is either the sentinel move, when nothing ever improved on a
/// bound of zero, or the *first* of the initial state's legal moves: because
/// each top-level search explores the whole space from the initial state and
/// leaves its depth dominated, a later choice's search can never raise the
/// bound, so all credit falls to the first choice. Whatever the exit —
/// threshold, exhaustion, or the deepening cap — the bound it returns on is a
/// floor genuinely achieved within some searched depth of at least one, it
/// dominates that whole depth, and it is never below the initial state's own
/// floor. The driver stops deepening after `u32::MAX` rounds and returns the
/// best answer found; with a state space that never exhausts and never beats
/// the threshold it is the caller's responsibility to bound the search.
#[verifier::loop_isolation(false)]
pub fn solve<S, T>(state: &S) -> (r: T) where S: SearchState<T>, T: StateTransition
    requires
        space_bounds_ok(*state),
        state.spec_transitions().len() > 0,
    ensures
        r == T::spec_default() || r == state.spec_transitions()[0],
        r == T::spec_default() || state.spec_transitions().contains(r),
        r != T::spec_default() ==> exists|v: u64| v > 0 && #[trigger] achievable(*state, v),
        state.spec_no_worse_than() > 0 ==> r == state.spec_transitions()[0],
        exists|v: u64, d: nat|
            1 <= d && #[trigger] dominated(*state, d, v) && v >= state.spec_no_worse_than() && (v
                > 0 ==> achieves(*state, d, v) && state.spec_transitions().contains(r)),
{
    let mut lb: u64 = 0;
    let mut best: T = T::default_move();
    let choices = state.possible_transitions();
    let mut max_depth: u32 = 1;
    while max_depth < u32::MAX
        invariant
            1 <= max_depth,
            best == T::spec_default() || (best == choices@[0] && lb > 0),
            lb > 0 ==> best == choices@[0] && achievable(*state, lb) && achieves(
                *state,
                max_depth as nat,
                lb,
            ),
            max_depth >= 2 ==> lb >= state.spec_no_worse_than() && (exists|d: nat|
                1 <= d && #[trigger] dominated(*state, d, lb) && (lb > 0 ==> achieves(
                    *state,
                    d,
                    lb,
                ))),
        decreases u32::MAX - max_depth,
    {
        let mut ci: usize = 0;
        while ci < choices.len()
            invariant
                ci <= choices.len(),
                best == T::spec_default() || (best == choices@[0] && lb > 0),
                lb > 0 ==> best == choices@[0] && achievable(*state, lb) && achieves(
                    *state,
                    max_depth as nat,
                    lb,
                ),
                ci >= 1 ==> dominated(*state, max_depth as nat, lb) && lb
                    >= state.spec_no_worse_than(),
                max_depth >= 2 ==> lb >= state.spec_no_worse_than(),
            decreases choices@.len() - ci,
        {
            let ghost lb_pre = lb;
            let c = &choices[ci];
            let completed = a_star(c, state, max_depth, &mut lb, &mut best);
            proof {
                if lb > lb_pre {
                    assert(choices@[ci as int] == *c);
                    if ci >= 1 {
                        // the first choice's pass already dominated this
                        // depth, so a strictly better floor within it is
                        // impossible
                        let p = choose|p: Seq<T>|
                            p.len() <= max_depth as nat && #[trigger] path_ok(*state, p)
                                && path_end(*state, p).spec_no_worse_than() == lb;
                        assert(path_end(*state, p).spec_no_worse_than() <= lb_pre);
                        assert(false);
                    }
                    lemma_achieves_achievable(*state, max_depth as nat, lb);
                }
            }
            if lb > GOOD_ENOUGH || completed {
                proof {
                    assert(choices@.contains(choices@[0]));
                    if best != T::spec_default() {
                        assert(lb > 0 && achievable(*state, lb));
                    }
                    assert(1 <= max_depth as nat && dominated(*state, max_depth as nat, lb) && lb
                        >= state.spec_no_worse_than() && (lb > 0 ==> achieves(
                        *state,
                        max_depth as nat,
                        lb,
                    ) && choices@.contains(best)));
                }
                return best;
            }
            ci += 1;
        }
        proof {
            assert(dominated(*state, max_depth as nat, lb));
        }
        let ghost dprev = max_depth as nat;
        max_depth += 1;
        proof {
            if lb > 0 {
                lemma_achieves_widen(*state, dprev, max_depth as nat, lb);
            }
            assert(1 <= dprev && dominated(*state, dprev, lb) && (lb > 0 ==> achieves(
                *state,
                dprev,
                lb,
            )));
        }
    }
    proof {
        assert(choices@.contains(choices@[0]));
        if best != T::spec_default() {
            assert(lb > 0 && achievable(*state, lb));
        }
        let d = choose|d: nat|
            1 <= d && #[trigger] dominated(*state, d, lb) && (lb > 0 ==> achieves(*state, d, lb));
        assert(dominated(*state, d, lb) && lb >= state.spec_no_worse_than() && (lb > 0
            ==> achieves(*state, d, lb) && choices@.contains(best)));
    }
    best
}

} // verus!
