//! The engine on the seven-node tree: exhaustion, pruning, monotonicity.

use bound_search::a_star;
use bound_search::solve;
use bound_search::SearchState;
use bound_search::StateTransition;
use bound_search::TreeState;

#[test]
fn exhaustion_at_sufficient_depth() {
    // depth two covers the whole tree: the search reports it exhausted and
    // the bound lands exactly on the best floor, at terminal node six
    let mut lb: u64 = 0;
    let mut best: u64 = 0;
    let root = TreeState { n: 0 };
    let exhausted = a_star(&5, &root, 2, &mut lb, &mut best);
    assert!(exhausted);
    assert_eq!(lb, 600_000);
    // every improvement is credited to the producing move handed in
    assert_eq!(best, 5);
}

#[test]
fn not_exhausted_below_true_depth() {
    // depth one stops above the leaves, so the subtree is not exhausted
    let mut lb: u64 = 0;
    let mut best: u64 = 0;
    let root = TreeState { n: 0 };
    let exhausted = a_star(&7, &root, 1, &mut lb, &mut best);
    assert!(!exhausted);
    assert_eq!(lb, 200_000);
    assert_eq!(best, 7);
}

#[test]
fn terminal_state_is_exhausted_at_depth_zero() {
    let mut lb: u64 = 0;
    let mut best: u64 = 0;
    let leaf = TreeState { n: 3 };
    let exhausted = a_star(&1, &leaf, 0, &mut lb, &mut best);
    assert!(exhausted);
    assert_eq!(lb, 300_000);
    // a branching state at depth zero leaves work undone
    let mut lb2: u64 = 0;
    let mut best2: u64 = 0;
    let exhausted2 = a_star(&1, &TreeState { n: 0 }, 0, &mut lb2, &mut best2);
    assert!(!exhausted2);
}

#[test]
fn pruned_branch_never_changes_the_answer() {
    // with the bound already at 450_000, the left child's ceiling of 400_000
    // is pruned; the answer equals a search of the surviving branch alone
    let mut lb: u64 = 450_000;
    let mut best: u64 = 0;
    let root = TreeState { n: 0 };
    let exhausted = a_star(&1, &root, 2, &mut lb, &mut best);
    assert_eq!(lb, 600_000);
    assert_eq!(best, 1);
    // pruning alone does not count against exhaustion
    assert!(exhausted);
    let mut lb_right: u64 = 450_000;
    let mut best_right: u64 = 0;
    let right = TreeState { n: 2 };
    a_star(&1, &right, 1, &mut lb_right, &mut best_right);
    assert_eq!(lb_right, lb);
    assert_eq!(best_right, best);
}

#[test]
fn bound_is_monotone_and_best_moves_with_it() {
    let root = TreeState { n: 0 };
    let mut lb: u64 = 0;
    let mut best: u64 = 9;
    a_star(&1, &root, 1, &mut lb, &mut best);
    let after_first = lb;
    assert_eq!(after_first, 200_000);
    assert_eq!(best, 1);
    // a second pass finds nothing better: the bound holds and the best
    // move is left exactly as it was
    a_star(&2, &root, 1, &mut lb, &mut best);
    assert!(lb >= after_first);
    assert_eq!(lb, after_first);
    assert_eq!(best, 1);
    // a deeper pass improves the bound, and only then moves the credit
    a_star(&2, &root, 2, &mut lb, &mut best);
    assert!(lb > after_first);
    assert_eq!(lb, 600_000);
    assert_eq!(best, 2);
}

#[test]
fn solve_credits_the_first_exploring_move() {
    // the driver hands the whole search of the initial state to each
    // top-level move in turn, so the first one gets the credit even though
    // the best leaf hangs under the other branch
    let root = TreeState { n: 0 };
    let answer: u64 = solve(&root);
    assert_eq!(answer, 1);
}

#[test]
fn tree_shape() {
    let root = TreeState { n: 0 };
    assert_eq!(root.possible_transitions(), vec![1, 2]);
    assert_eq!(root.state_transition(&2).n, 2);
    assert_eq!(TreeState { n: 2 }.state_transition(&2).n, 6);
    let leaf = TreeState { n: 4 };
    assert!(leaf.possible_transitions().is_empty());
    assert_eq!(leaf.value(), 400_000);
    assert_eq!(leaf.no_worse_than(), leaf.no_better_than());
    assert_eq!(<u64 as StateTransition>::default_move(), 0);
}
