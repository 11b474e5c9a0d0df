//! The action encoding shared with the policy network: placement
//! `(g, x, y)` is action `g * BOARD_CELLS + y * BOARD_SIZE + x`, and passing
//! is the last action, `PASS_ACTION`.
use vstd::prelude::*;
use vstd::arithmetic::div_mod::lemma_fundamental_div_mod_converse;
use crate::table::{
    orientation_name, ACTION_SIZE, BOARD_CELLS, BOARD_SIZE, ORIENTATION_COUNT, PASS_ACTION,
};
use crate::pieces::get_orientation;
use crate::types::{Move, MoveModel, StateModel};
use crate::rules::{lemma_legal_placement_shape, legal_move, legal_placement};

verus! {

/// The action number of a move.
pub open spec fn action_of(m: MoveModel) -> int {
    match m {
        MoveModel::Pass { .. } => PASS_ACTION as int,
        MoveModel::Place { orientation_global_id, x, y, .. } => orientation_global_id * BOARD_CELLS
            + y * BOARD_SIZE + x,
    }
}

/// The move that `action` stands for when `player` makes it.
pub open spec fn decoded(action: int, player: nat) -> Option<MoveModel> {
    if action == PASS_ACTION {
        Some(MoveModel::Pass { player })
    } else if action < 0 || action >= ACTION_SIZE {
        None
    } else {
        let g = action / BOARD_CELLS as int;
        let position = action % BOARD_CELLS as int;
        Some(
            MoveModel::Place {
                player,
                piece_id: orientation_name(g),
                orientation_global_id: g as nat,
                x: (position % BOARD_SIZE as int) as nat,
                y: (position / BOARD_SIZE as int) as nat,
            },
        )
    }
}

/// The number of actions, passing included.
pub fn action_size() -> (r: usize)
    ensures
        r == ACTION_SIZE,
{
    ACTION_SIZE
}

/// The action number of a pass.
pub fn pass_action() -> (r: usize)
    ensures
        r == PASS_ACTION,
{
    PASS_ACTION
}

/// The action number of `mv`.
pub fn encode_action(mv: &Move) -> (r: usize)
    requires
        action_of(mv@) <= usize::MAX,
    ensures
        r == action_of(mv@),
{
    match mv {
        Move::Pass { .. } => pass_action(),
        Move::Place { orientation_global_id, x, y, .. } => {
            proof {
                assert(*y * BOARD_SIZE <= action_of(mv@)) by (nonlinear_arith)
                    requires
                        action_of(mv@) == *orientation_global_id * BOARD_CELLS + *y * BOARD_SIZE
                            + *x,
                ;
                assert(*orientation_global_id * BOARD_CELLS <= action_of(mv@)) by (nonlinear_arith)
                    requires
                        action_of(mv@) == *orientation_global_id * BOARD_CELLS + *y * BOARD_SIZE
                            + *x,
                ;
            }
            orientation_global_id * BOARD_CELLS + y * BOARD_SIZE + x
        },
    }
}

/// The move that `action` stands for when `player` makes it, if any.
pub fn decode_action(action: usize, player: usize) -> (r: Option<Move>)
    ensures
        r matches Some(m) ==> decoded(action as int, player as nat) == Some(m@),
        r is None ==> decoded(action as int, player as nat) is None,
{
    if action == pass_action() {
        return Some(Move::Pass { player });
    }
    if action >= action_size() {
        return None;
    }
    let orientation_global_id = action / BOARD_CELLS;
    let position = action % BOARD_CELLS;
    let orientation = match get_orientation(orientation_global_id) {
        Some(o) => o,
        None => {
            return None;
        },
    };
    Some(
        Move::Place {
            player,
            piece_id: orientation.piece_id,
            orientation_global_id,
            x: position % BOARD_SIZE,
            y: position / BOARD_SIZE,
        },
    )
}

/// Decoding the action of a placement on the board gives the placement back.
pub proof fn lemma_decode_encode_place(
    player: nat,
    piece_id: Seq<char>,
    g: nat,
    x: nat,
    y: nat,
)
    requires
        g < ORIENTATION_COUNT,
        x < BOARD_SIZE,
        y < BOARD_SIZE,
        piece_id == orientation_name(g as int),
    ensures
        decoded(
            action_of(MoveModel::Place { player, piece_id, orientation_global_id: g, x, y }),
            player,
        ) == Some(MoveModel::Place { player, piece_id, orientation_global_id: g, x, y }),
{
    let position = y * BOARD_SIZE + x;
    let a = g * BOARD_CELLS + position;
    assert(a < PASS_ACTION) by (nonlinear_arith)
        requires
            g < ORIENTATION_COUNT,
            a == g * BOARD_CELLS + position,
            position < BOARD_CELLS,
    ;
    lemma_fundamental_div_mod_converse(a, BOARD_CELLS as int, g as int, position);
    lemma_fundamental_div_mod_converse(position, BOARD_SIZE as int, y as int, x as int);
}

/// Decoding the pass action gives a pass by the same player.
pub proof fn lemma_decode_pass(player: nat)
    ensures
        decoded(PASS_ACTION as int, player) == Some(MoveModel::Pass { player }),
{
}

/// Every action below `ACTION_SIZE` decodes to a move that encodes back to it.
pub proof fn lemma_encode_decode(action: int, player: nat)
    requires
        0 <= action < ACTION_SIZE,
    ensures
        decoded(action, player) is Some,
        action_of(decoded(action, player)->0) == action,
{
    if action != PASS_ACTION {
        let g = action / BOARD_CELLS as int;
        let position = action % BOARD_CELLS as int;
        assert(action == g * BOARD_CELLS + position);
        assert(position == (position / BOARD_SIZE as int) * BOARD_SIZE + position % BOARD_SIZE as int);
    }
}

/// Every legal move survives encoding and decoding by the player to move.
pub proof fn lemma_legal_move_round_trip(s: StateModel, m: MoveModel)
    requires
        legal_move(s, m),
    ensures
        decoded(action_of(m), s.current_player) == Some(m),
{
    if legal_placement(s, m) {
        lemma_legal_placement_shape(s, m);
        lemma_decode_encode_place(
            m->Place_player,
            m->Place_piece_id,
            m->Place_orientation_global_id,
            m->Place_x,
            m->Place_y,
        );
    }
}

/// Actions number the placements row by row: the corner of the first
/// orientation is action 0, one column to the right adds 1, one row down
/// adds `BOARD_SIZE`, the next orientation adds `BOARD_CELLS`; passing comes
/// after every placement. Decoding an action below the pass action gives a
/// placement by the same player with its corner on the board and the piece
/// of its orientation.
pub proof fn lemma_action_numbering(player: nat, piece: Seq<char>, g: nat, x: nat, y: nat, action: int)
    ensures
        action_of(MoveModel::Place { player, piece_id: piece, orientation_global_id: 0, x: 0, y: 0 })
            == 0,
        action_of(MoveModel::Place { player, piece_id: piece, orientation_global_id: g, x: x + 1, y })
            == action_of(MoveModel::Place { player, piece_id: piece, orientation_global_id: g, x, y })
            + 1,
        action_of(MoveModel::Place { player, piece_id: piece, orientation_global_id: g, x, y: y + 1 })
            == action_of(MoveModel::Place { player, piece_id: piece, orientation_global_id: g, x, y })
            + BOARD_SIZE,
        action_of(
            MoveModel::Place { player, piece_id: piece, orientation_global_id: g + 1, x, y },
        ) == action_of(MoveModel::Place { player, piece_id: piece, orientation_global_id: g, x, y })
            + BOARD_CELLS,
        action_of(MoveModel::Pass { player }) == ORIENTATION_COUNT * BOARD_CELLS,
        0 <= action < PASS_ACTION ==> ({
            let d = decoded(action, player);
            &&& d is Some
            &&& d->0 is Place
            &&& d->0->Place_player == player
            &&& d->0->Place_x < BOARD_SIZE
            &&& d->0->Place_y < BOARD_SIZE
            &&& d->0->Place_orientation_global_id < ORIENTATION_COUNT
            &&& d->0->Place_piece_id == orientation_name(d->0->Place_orientation_global_id as int)
            &&& action_of(d->0) == action
        }),
{
    if 0 <= action < PASS_ACTION {
        lemma_encode_decode(action, player);
        let g = action / BOARD_CELLS as int;
        assert(g < ORIENTATION_COUNT) by {
            assert(action < ORIENTATION_COUNT * BOARD_CELLS);
        }
    }
}

} // verus!
