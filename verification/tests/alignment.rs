//! The string-alignment scenario: solving toward the target "AAABBBCCC".

use bound_search::solve;
use bound_search::Guess;
use bound_search::SearchState;
use bound_search::StateTransition;
use bound_search::GOOD_ENOUGH;
use bound_search::SCALE;

#[test]
fn it_works() {
    // the partial string "D": one character appended, none matching
    let initial = Guess { len: 1, right: 0 };
    let solution: char = solve(&initial);
    println!("take {:?} (h:{:?})", &solution, initial.value());
}

#[test]
fn threshold_early_exit() {
    // from the empty string the perfect alignment is reachable, its floor
    // beats the threshold, and the first top-level move gets the credit
    let initial = Guess { len: 0, right: 0 };
    let solution: char = solve(&initial);
    assert_eq!(solution, 'A');
}

#[test]
fn mismatched_start_still_answers() {
    // from "D" no alignment beats the threshold, so the search runs until
    // every branch is pruned; the answer is the first choice (which here is
    // also the sentinel), since later choices can never raise the bound
    let initial = Guess { len: 1, right: 0 };
    let solution: char = solve(&initial);
    assert_eq!(solution, 'A');
}

#[test]
fn bounds_of_partial_strings() {
    // "D": nothing matches, one mismatch is permanent
    let d = Guess { len: 1, right: 0 };
    assert_eq!(d.no_worse_than(), 0);
    assert_eq!(d.no_better_than(), 888_888);
    // "DA": position one matches the target's second 'A'
    let da = d.state_transition(&'A');
    assert_eq!(da.len, 2);
    assert_eq!(da.right, 1);
    assert_eq!(da.no_worse_than(), 111_111);
    assert_eq!(da.no_better_than(), 888_888);
    // "DB": a second mismatch
    let db = d.state_transition(&'B');
    assert_eq!(db.right, 0);
    assert_eq!(db.no_better_than(), 777_777);
    // the original state is unchanged by applying a move
    assert_eq!(d.len, 1);
    assert_eq!(d.right, 0);
}

#[test]
fn bounds_respect_ordering() {
    // the floor never exceeds the ceiling on states the tests supply
    let states = [
        Guess { len: 0, right: 0 },
        Guess { len: 1, right: 0 },
        Guess { len: 5, right: 3 },
        Guess { len: 9, right: 9 },
        Guess { len: 20, right: 8 },
    ];
    for g in states.iter() {
        assert!(g.no_worse_than() <= g.no_better_than());
    }
}

#[test]
fn perfect_alignment_scores_one() {
    let done = Guess { len: 9, right: 9 };
    assert_eq!(done.value(), SCALE);
    assert_eq!(done.no_worse_than(), SCALE);
    assert!(done.no_worse_than() > GOOD_ENOUGH);
    // appending past the target is no longer the target
    let over = done.state_transition(&'A');
    assert_eq!(over.value(), 0);
    let partial = Guess { len: 3, right: 3 };
    assert_eq!(partial.value(), 0);
}

#[test]
fn four_moves_always_legal() {
    let g = Guess { len: 7, right: 2 };
    let moves = g.possible_transitions();
    assert_eq!(moves, vec!['A', 'B', 'C', 'D']);
}

#[test]
fn sentinel_move() {
    let m: char = <char as StateTransition>::default_move();
    assert_eq!(m, 'A');
    assert_eq!('C'.clone_move(), 'C');
}
