//! A small finite, acyclic problem used to exercise the engine's exhaustion
//! behaviour.
//!
//! The space is a complete binary tree of seven nodes, numbered heap-style:
//! node `n` of the first three has children `2n + 1` and `2n + 2`, reached by
//! the moves `1` and `2`; nodes three to six are terminal. The floor of node
//! `n` is `n` tenths of the full scale, so the deepest right-most node scores
//! best; the ceiling of each node is the exact maximum floor in its subtree,
//! so the space is sound by construction.

use vstd::prelude::*;

use crate::problem::{SearchState, StateTransition};
use crate::reach::{
    achieves, depth_bounded, dominated, path_end, path_ok, space_bounds_ok, state_bounds_ok,
};

verus! {

/// The floor of node `n`: `n` tenths of the full scale, zero outside the
/// tree.
pub open spec fn tree_floor(n: u64) -> u64 {
    if n <= 6 {
        (n * 100_000) as u64
    } else {
        0
    }
}

/// The ceiling of node `n`: the exact maximum floor within its subtree.
pub open spec fn tree_ceiling(n: u64) -> u64 {
    if n == 0 {
        600_000
    } else if n == 1 {
        400_000
    } else if n == 2 {
        600_000
    } else {
        tree_floor(n)
    }
}

/// A node of the seven-node binary tree.
#[derive(Clone, Copy, Debug)]
pub struct TreeState {
    /// The node's number, heap-style from the root `0`.
    pub n: u64,
}

impl StateTransition for u64 {
    open spec fn spec_default() -> u64 {
        0
    }

    fn default_move() -> (r: u64) {
        0
    }

    fn clone_move(&self) -> (r: u64) {
        *self
    }
}

impl SearchState<u64> for TreeState {
    open spec fn spec_transition(self, t: u64) -> TreeState {
        if self.n <= 2 && 1 <= t <= 2 {
            TreeState { n: (2 * self.n + t) as u64 }
        } else {
            self
        }
    }

    open spec fn spec_transitions(self) -> Seq<u64> {
        if self.n <= 2 {
            seq![1u64, 2u64]
        } else {
            Seq::empty()
        }
    }

    open spec fn spec_no_better_than(self) -> u64 {
        tree_ceiling(self.n)
    }

    open spec fn spec_no_worse_than(self) -> u64 {
        tree_floor(self.n)
    }

    open spec fn spec_value(self) -> u64 {
        tree_floor(self.n)
    }

    fn state_transition(&self, t: &u64) -> (r: TreeState) {
        if self.n <= 2 && 1 <= *t && *t <= 2 {
            TreeState { n: 2 * self.n + *t }
        } else {
            *self
        }
    }

    fn possible_transitions(&self) -> (r: Vec<u64>) {
        let mut v: Vec<u64> = Vec::new();
        if self.n <= 2 {
            v.push(1);
            v.push(2);
            proof {
                assert(v@ =~= seq![1u64, 2u64]);
            }
        } else {
            proof {
                assert(v@ =~= Seq::<u64>::empty());
            }
        }
        v
    }

    fn no_better_than(&self) -> (r: u64) {
        if self.n == 0 {
            600_000
        } else if self.n == 1 {
            400_000
        } else if self.n == 2 {
            600_000
        } else if self.n <= 6 {
            self.n * 100_000
        } else {
            0
        }
    }

    fn no_worse_than(&self) -> (r: u64) {
        if self.n <= 6 {
            self.n * 100_000
        } else {
            0
        }
    }

    fn value(&self) -> (r: u64) {
        if self.n <= 6 {
            self.n * 100_000
        } else {
            0
        }
    }
}

/// Bound ordering: every node's floor is at most its ceiling.
pub proof fn lemma_tree_bounds_ordered(s: TreeState)
    ensures
        s.spec_no_worse_than() <= s.spec_no_better_than(),
{
}

/// One legal move never raises the ceiling.
proof fn lemma_tree_step(s: TreeState, t: u64)
    ensures
        s.spec_transition(t).spec_no_better_than() <= s.spec_no_better_than(),
{
}

/// Along any legal path the ceiling never rises.
proof fn lemma_tree_path(s: TreeState, p: Seq<u64>)
    requires
        path_ok(s, p),
    ensures
        path_end(s, p).spec_no_better_than() <= s.spec_no_better_than(),
    decreases p.len(),
{
    if p.len() > 0 {
        lemma_tree_step(s, p[0]);
        lemma_tree_path(s.spec_transition(p[0]), p.skip(1));
    }
}

/// A terminal node admits no legal path but the empty one.
proof fn lemma_tree_leaf_paths(x: TreeState, p: Seq<u64>)
    requires
        3 <= x.n,
        path_ok(x, p),
    ensures
        p.len() == 0,
{
    if p.len() > 0 {
        assert(x.spec_transitions().contains(p[0]));
        assert(false);
    }
}

/// From a middle node every legal path has at most one move.
proof fn lemma_tree_mid_paths(x: TreeState, p: Seq<u64>)
    requires
        1 <= x.n <= 2,
        path_ok(x, p),
    ensures
        p.len() <= 1,
{
    if p.len() > 0 {
        let c = p[0];
        assert(x.spec_transitions().contains(c));
        let i = choose|i: int|
            0 <= i < x.spec_transitions().len() && x.spec_transitions()[i] == c;
        assert(c == 1 || c == 2);
        assert(3 <= x.spec_transition(c).n);
        lemma_tree_leaf_paths(x.spec_transition(c), p.skip(1));
    }
}

/// The tree is no deeper than two moves: with a depth limit of two the
/// search is guaranteed to report it exhausted.
pub proof fn lemma_tree_depth_bounded()
    ensures
        depth_bounded(TreeState { n: 0 }, 2),
{
    let root = TreeState { n: 0 };
    assert forall|p: Seq<u64>| #[trigger] path_ok(root, p) implies p.len() <= 2 by {
        if p.len() > 0 {
            let c = p[0];
            assert(root.spec_transitions().contains(c));
            let i = choose|i: int|
                0 <= i < root.spec_transitions().len() && root.spec_transitions()[i] == c;
            assert(c == 1 || c == 2);
            assert(1 <= root.spec_transition(c).n <= 2);
            lemma_tree_mid_paths(root.spec_transition(c), p.skip(1));
        }
    }
}

/// Exhaustion correctness on the tree: a bound that dominates depth two from
/// the root and was either never raised or genuinely achieved must be exactly
/// the best floor anywhere in the tree, the terminal node six.
pub proof fn lemma_tree_exhausted_bound(v: u64)
    requires
        dominated(TreeState { n: 0 }, 2, v),
        v == 0 || achieves(TreeState { n: 0 }, 2, v),
    ensures
        v == 600_000,
{
    let root = TreeState { n: 0 };
    let p = seq![2u64, 2u64];
    let p1 = seq![2u64];
    assert(root.spec_transitions()[1] == 2u64);
    assert(root.spec_transitions().contains(2u64));
    let mid = root.spec_transition(2u64);
    assert(mid.spec_transitions()[1] == 2u64);
    assert(mid.spec_transitions().contains(2u64));
    let leaf = mid.spec_transition(2u64);
    assert(leaf.n == 6);
    let e = Seq::<u64>::empty();
    assert(path_ok(leaf, e) && path_end(leaf, e) == leaf);
    assert(p1[0] == 2u64 && p1.skip(1) =~= e);
    assert(path_ok(mid, p1) && path_end(mid, p1) == leaf);
    assert(p[0] == 2u64 && p.skip(1) =~= p1);
    assert(path_ok(root, p) && path_end(root, p) == leaf);
    assert(600_000 <= v);
    let q = choose|q: Seq<u64>|
        q.len() <= 2 && #[trigger] path_ok(root, q) && path_end(root, q).spec_no_worse_than()
            == v;
    lemma_tree_path(root, q);
    lemma_tree_bounds_ordered(path_end(root, q));
    assert(v <= 600_000);
}

/// The tree is a sound space from any node: its ceilings are the exact
/// subtree maxima, so the engine's pruning assumption always holds here.
pub proof fn lemma_tree_space_bounds(s: TreeState)
    ensures
        space_bounds_ok(s),
{
    assert forall|p: Seq<u64>| #[trigger] path_ok(s, p) implies state_bounds_ok(
        path_end(s, p),
    ) by {
        lemma_tree_path(s, p);
        let x = path_end(s, p);
        assert forall|q: Seq<u64>| #[trigger] path_ok(x, q) implies path_end(
            x,
            q,
        ).spec_no_worse_than() <= x.spec_no_better_than() by {
            lemma_tree_path(x, q);
            lemma_tree_bounds_ordered(path_end(x, q));
        }
    }
}

} // verus!
