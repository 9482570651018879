//! A generic combinatorial-search engine: iterative-deepening, depth-limited
//! search with branch-and-bound pruning over a caller-supplied state space.
//!
//! The caller describes a problem through the [`StateTransition`] and
//! [`SearchState`] traits; the engine contributes only the search strategy:
//! [`a_star`], the recursive bounded search, and [`solve`], the
//! iterative-deepening driver around it.

mod guess;
mod problem;
mod reach;
mod search;
mod tree;

pub use guess::goal_char;
pub use guess::lemma_guess_bounds_ordered;
pub use guess::lemma_guess_space_bounds;
pub use guess::Guess;
pub use guess::GOAL_LEN;
pub use problem::SearchState;
pub use problem::StateTransition;
pub use problem::GOOD_ENOUGH;
pub use problem::SCALE;
pub use reach::achievable;
pub use reach::achieves;
pub use reach::depth_bounded;
pub use reach::dominated;
pub use reach::dominated_all;
pub use reach::lemma_dominated_meets_threshold;
pub use reach::lemma_exhausted_all_is_max;
pub use reach::lemma_exhausted_is_max;
pub use reach::lemma_pruning_sound;
pub use reach::path_end;
pub use reach::path_ok;
pub use reach::space_bounds_ok;
pub use reach::state_bounds_ok;
pub use search::a_star;
pub use search::solve;
pub use tree::lemma_tree_bounds_ordered;
pub use tree::lemma_tree_depth_bounded;
pub use tree::lemma_tree_exhausted_bound;
pub use tree::lemma_tree_space_bounds;
pub use tree::TreeState;
