//! The string-alignment toy problem used to exercise the engine.
//!
//! A state stands for a partial string built by appending one of the four
//! characters `'A'`..`'D'`, aligned against the nine-character target
//! `"AAABBBCCC"`. Only two facts about the partial string matter to the
//! bounds, so the state records exactly those: how many characters have been
//! appended, and how many of the compared positions match the target. The
//! floor is the fraction of target positions already matched; the ceiling is
//! one minus the fraction already mismatched, since a mismatch can never be
//! repaired by appending.

use vstd::prelude::*;

use crate::problem::{SearchState, StateTransition, SCALE};
use crate::reach::{path_end, path_ok, space_bounds_ok, state_bounds_ok};

verus! {

/// The length of the target string `"AAABBBCCC"`.
pub const GOAL_LEN: u64 = 9;

/// The target character at position `i`: `'A'` then `'B'` then `'C'`, three
/// of each; positions past the target get a character no move supplies.
pub open spec fn goal_char(i: int) -> char {
    if 0 <= i < 3 {
        'A'
    } else if 3 <= i < 6 {
        'B'
    } else if 6 <= i < 9 {
        'C'
    } else {
        'E'
    }
}

/// A score of `k` ninths, as a fraction of [`SCALE`], with `k` clamped to at
/// most nine.
pub open spec fn frac9(k: u64) -> u64 {
    (((if k > 9 {
        9u64
    } else {
        k
    }) * SCALE) / 9) as u64
}

/// A partial string aligned against the target: `len` characters appended so
/// far, `right` of the compared positions matching.
#[derive(Clone, Copy, Debug)]
pub struct Guess {
    /// How many characters the partial string holds.
    pub len: u64,
    /// How many of the compared positions match the target.
    pub right: u64,
}

impl Guess {
    /// A well-formed alignment: no more matches than characters compared.
    pub open spec fn wf(self) -> bool {
        self.right <= self.len && self.right <= GOAL_LEN
    }

    /// How many of the compared positions mismatch the target.
    pub open spec fn spec_wrong(self) -> u64 {
        let cmp = if self.len > GOAL_LEN {
            GOAL_LEN
        } else {
            self.len
        };
        if self.right >= cmp {
            0u64
        } else {
            (cmp - self.right) as u64
        }
    }
}

impl StateTransition for char {
    open spec fn spec_default() -> char {
        'A'
    }

    fn default_move() -> (r: char) {
        'A'
    }

    fn clone_move(&self) -> (r: char) {
        *self
    }
}

/// The target character at position `i`, executable form.
fn goal_char_at(i: u64) -> (r: char)
    ensures
        r == goal_char(i as int),
{
    if i < 3 {
        'A'
    } else if i < 6 {
        'B'
    } else if i < 9 {
        'C'
    } else {
        'E'
    }
}

/// A score of `k` ninths, executable form.
fn frac9_of(k: u64) -> (r: u64)
    ensures
        r == frac9(k),
{
    let c = if k > 9 {
        9
    } else {
        k
    };
    c * SCALE / 9
}

impl SearchState<char> for Guess {
    open spec fn spec_transition(self, t: char) -> Guess {
        Guess {
            len: if self.len == u64::MAX {
                self.len
            } else {
                (self.len + 1) as u64
            },
            right: if self.len < GOAL_LEN && t == goal_char(self.len as int) && self.right
                != u64::MAX {
                (self.right + 1) as u64
            } else {
                self.right
            },
        }
    }

    open spec fn spec_transitions(self) -> Seq<char> {
        seq!['A', 'B', 'C', 'D']
    }

    open spec fn spec_no_better_than(self) -> u64 {
        frac9((GOAL_LEN - self.spec_wrong()) as u64)
    }

    open spec fn spec_no_worse_than(self) -> u64 {
        frac9(self.right)
    }

    open spec fn spec_value(self) -> u64 {
        if self.len == GOAL_LEN && self.right == GOAL_LEN {
            SCALE
        } else {
            0
        }
    }

    fn state_transition(&self, t: &char) -> (r: Guess) {
        let len2: u64 = if self.len == u64::MAX {
            self.len
        } else {
            self.len + 1
        };
        let right2: u64 = if self.len < GOAL_LEN && *t == goal_char_at(self.len) && self.right
            != u64::MAX {
            self.right + 1
        } else {
            self.right
        };
        Guess { len: len2, right: right2 }
    }

    fn possible_transitions(&self) -> (r: Vec<char>) {
        let mut v: Vec<char> = Vec::new();
        v.push('A');
        v.push('B');
        v.push('C');
        v.push('D');
        proof {
            assert(v@ =~= seq!['A', 'B', 'C', 'D']);
        }
        v
    }

    fn no_better_than(&self) -> (r: u64) {
        let cmp: u64 = if self.len > GOAL_LEN {
            GOAL_LEN
        } else {
            self.len
        };
        let wrong: u64 = if self.right >= cmp {
            0
        } else {
            cmp - self.right
        };
        frac9_of(GOAL_LEN - wrong)
    }

    fn no_worse_than(&self) -> (r: u64) {
        frac9_of(self.right)
    }

    fn value(&self) -> (r: u64) {
        if self.len == GOAL_LEN && self.right == GOAL_LEN {
            SCALE
        } else {
            0
        }
    }
}

/// Ninths are ordered as their numerators are.
proof fn lemma_frac9_mono(a: u64, b: u64)
    requires
        a <= b,
    ensures
        frac9(a) <= frac9(b),
{
    let ca: u64 = if a > 9 {
        9u64
    } else {
        a
    };
    let cb: u64 = if b > 9 {
        9u64
    } else {
        b
    };
    assert(ca <= cb);
    vstd::arithmetic::div_mod::lemma_div_is_ordered((ca * SCALE) as int, (cb * SCALE) as int, 9);
}

/// Bound ordering: an alignment's floor never exceeds its ceiling — for every
/// state, well-formed or not, since both scores clamp at nine ninths.
pub proof fn lemma_guess_bounds_ordered(g: Guess)
    ensures
        g.spec_no_worse_than() <= g.spec_no_better_than(),
{
    if g.right <= GOAL_LEN - g.spec_wrong() {
        lemma_frac9_mono(g.right, (GOAL_LEN - g.spec_wrong()) as u64);
    } else {
        assert(g.spec_wrong() == 0);
        assert(frac9(g.right) == frac9(9));
    }
}

/// One appended character keeps the alignment well-formed and can only lower
/// (never raise) the ceiling: a mismatch is permanent.
proof fn lemma_guess_step(g: Guess, t: char)
    requires
        g.wf(),
    ensures
        g.spec_transition(t).wf(),
        g.spec_transition(t).spec_no_better_than() <= g.spec_no_better_than(),
{
    let child = g.spec_transition(t);
    assert(g.spec_wrong() <= child.spec_wrong());
    lemma_frac9_mono(
        (GOAL_LEN - child.spec_wrong()) as u64,
        (GOAL_LEN - g.spec_wrong()) as u64,
    );
}

/// Along any legal path the alignment stays well-formed and the ceiling never
/// rises.
proof fn lemma_guess_path(g: Guess, p: Seq<char>)
    requires
        g.wf(),
        path_ok(g, p),
    ensures
        path_end(g, p).wf(),
        path_end(g, p).spec_no_better_than() <= g.spec_no_better_than(),
    decreases p.len(),
{
    if p.len() > 0 {
        lemma_guess_step(g, p[0]);
        lemma_guess_path(g.spec_transition(p[0]), p.skip(1));
    }
}

/// The alignment problem is a sound space: every reachable state's ceiling
/// bounds every floor below it, so the engine's pruning assumption holds of
/// every well-formed starting alignment.
pub proof fn lemma_guess_space_bounds(g: Guess)
    requires
        g.wf(),
    ensures
        space_bounds_ok(g),
{
    assert forall|p: Seq<char>| #[trigger] path_ok(g, p) implies state_bounds_ok(
        path_end(g, p),
    ) by {
        lemma_guess_path(g, p);
        let x = path_end(g, p);
        assert forall|q: Seq<char>| #[trigger] path_ok(x, q) implies path_end(
            x,
            q,
        ).spec_no_worse_than() <= x.spec_no_better_than() by {
            lemma_guess_path(x, q);
            lemma_guess_bounds_ordered(path_end(x, q));
        }
    }
}

} // verus!
