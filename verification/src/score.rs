//! Scoring: each player loses a point per unit square still in hand, with
//! bonuses for placing every piece and for finishing with the monomino.
use vstd::prelude::*;
use crate::table::{lemma_table_facts, orientation_size, ORIENTATION_COUNT};
use crate::pieces::{lemma_orientations_named, orientations_named, piece_size, piece_size_of};
use crate::types::{names, State, StateModel};

verus! {

/// The unit squares of all pieces in `list`.
pub open spec fn sum_sizes(list: Seq<Seq<char>>) -> nat
    decreases list.len(),
{
    if list.len() == 0 {
        0
    } else {
        sum_sizes(list.drop_last()) + piece_size_of(list.last())
    }
}

/// The score of `player`: minus the unit squares in hand, plus 15 once the
/// hand is empty, plus 5 more if the last piece placed was the monomino `I1`.
pub open spec fn score_of(s: StateModel, player: nat) -> int {
    let hand = s.remaining_pieces[player as int];
    let completed = hand.len() == 0;
    let completion_bonus: int = if completed {
        15
    } else {
        0
    };
    let monomino_last_bonus: int = if completed && s.last_placed_piece[player as int] == Some(
        "I1"@,
    ) {
        5
    } else {
        0
    };
    -(sum_sizes(hand) as int) + completion_bonus + monomino_last_bonus
}

/// No piece has more than five unit squares.
pub proof fn lemma_piece_size_at_most_five(name: Seq<char>)
    ensures
        piece_size_of(name) <= 5,
{
    lemma_table_facts();
    lemma_orientations_named(name, ORIENTATION_COUNT as int);
    let ids = orientations_named(name, ORIENTATION_COUNT as int);
    if ids.len() > 0 {
        assert(0 <= ids[0] < ORIENTATION_COUNT);
        assert(orientation_size(ids[0]) <= 5);
    }
}

pub proof fn lemma_sum_sizes_bound(list: Seq<Seq<char>>)
    ensures
        sum_sizes(list) <= 5 * list.len(),
    decreases list.len(),
{
    if list.len() > 0 {
        lemma_sum_sizes_bound(list.drop_last());
        lemma_piece_size_at_most_five(list.last());
    }
}

/// The unit squares of the pieces `player` still holds.
pub fn remaining_unit_squares(state: &State, player: usize) -> (r: usize)
    requires
        player < 2,
        5 * state.remaining_pieces[player as int]@.len() <= usize::MAX,
    ensures
        r == sum_sizes(state@.remaining_pieces[player as int]),
{
    let list = &state.remaining_pieces[player];
    let ghost hand = names(*list);
    let mut total: usize = 0;
    let mut i: usize = 0;
    while i < list.len()
        invariant
            hand == names(*list),
            5 * hand.len() <= usize::MAX,
            i <= list.len(),
            total == sum_sizes(hand.take(i as int)),
        decreases list.len() - i,
    {
        proof {
            assert(hand.take(i + 1).drop_last() =~= hand.take(i as int));
            lemma_sum_sizes_bound(hand.take(i + 1));
        }
        total = total + piece_size(list[i].as_str());
        i = i + 1;
    }
    assert(hand.take(hand.len() as int) =~= hand);
    total
}

/// The score of `player`.
pub fn score_player(state: &State, player: usize) -> (r: isize)
    requires
        player < 2,
        5 * state.remaining_pieces[player as int]@.len() <= isize::MAX,
    ensures
        r == score_of(state@, player as nat),
{
    proof {
        lemma_sum_sizes_bound(state@.remaining_pieces[player as int]);
    }
    let remaining = remaining_unit_squares(state, player) as isize;
    let completed = state.remaining_pieces[player].len() == 0;
    let completion_bonus: isize = if completed {
        15
    } else {
        0
    };
    let monomino = "I1".to_owned();
    let last_is_monomino = match &state.last_placed_piece[player] {
        Some(name) => *name == monomino,
        None => false,
    };
    let monomino_last_bonus: isize = if completed && last_is_monomino {
        5
    } else {
        0
    };
    -remaining + completion_bonus + monomino_last_bonus
}

/// Both players' scores.
pub fn score_state(state: &State) -> (r: [isize; 2])
    requires
        5 * state.remaining_pieces[0]@.len() <= isize::MAX,
        5 * state.remaining_pieces[1]@.len() <= isize::MAX,
    ensures
        r[0] == score_of(state@, 0),
        r[1] == score_of(state@, 1),
{
    [score_player(state, 0), score_player(state, 1)]
}

} // verus!
