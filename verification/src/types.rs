//! Game values: start rules, moves, game status and the full game state.
use vstd::prelude::*;
use crate::table::BOARD_CELLS;

verus! {

/// Whether each player must open from a fixed corner or may choose one.
#[derive(Debug, Clone, Copy, PartialEq, Eq, Structural)]
pub enum StartPolicy {
    ChooseStart,
    FixedStart,
}

/// The two start points: `A` is `(0, 0)`, `B` is `(13, 13)`.
#[derive(Debug, Clone, Copy, PartialEq, Eq, Structural)]
pub enum StartPoint {
    A,
    B,
}

/// A move: placing one orientation of a piece with its box corner at `(x, y)`, or passing.
#[derive(Debug, PartialEq, Eq)]
pub enum Move {
    Place { player: usize, piece_id: String, orientation_global_id: usize, x: usize, y: usize },
    Pass { player: usize },
}

#[derive(Debug, Clone, Copy, PartialEq, Eq, Structural)]
pub enum GameStatus {
    Playing,
    Finished,
}

/// The full state of a game of Blokus Duo.
#[derive(Debug)]
pub struct State {
    pub board: [i8; BOARD_CELLS],
    pub current_player: usize,
    pub turn: usize,
    pub status: GameStatus,
    pub start_policy: StartPolicy,
    pub start_assignment: [Option<StartPoint>; 2],
    pub remaining_pieces: [Vec<String>; 2],
    pub placed_pieces: [Vec<String>; 2],
    pub last_placed_piece: [Option<String>; 2],
    pub forced_passed: [bool; 2],
    pub consecutive_passes: usize,
}

/// The mathematical content of a [`Move`].
pub enum MoveModel {
    Place { player: nat, piece_id: Seq<char>, orientation_global_id: nat, x: nat, y: nat },
    Pass { player: nat },
}

impl MoveModel {
    pub open spec fn player(self) -> nat {
        match self {
            MoveModel::Place { player, .. } => player,
            MoveModel::Pass { player } => player,
        }
    }
}

impl View for Move {
    type V = MoveModel;

    open spec fn view(&self) -> MoveModel {
        match self {
            Move::Place { player, piece_id, orientation_global_id, x, y } => MoveModel::Place {
                player: *player as nat,
                piece_id: piece_id@,
                orientation_global_id: *orientation_global_id as nat,
                x: *x as nat,
                y: *y as nat,
            },
            Move::Pass { player } => MoveModel::Pass { player: *player as nat },
        }
    }
}

impl Clone for Move {
    fn clone(&self) -> (r: Self)
        ensures
            r@ == self@,
    {
        match self {
            Move::Place { player, piece_id, orientation_global_id, x, y } => Move::Place {
                player: *player,
                piece_id: piece_id.clone(),
                orientation_global_id: *orientation_global_id,
                x: *x,
                y: *y,
            },
            Move::Pass { player } => Move::Pass { player: *player },
        }
    }
}

/// The names held in a list of pieces.
pub open spec fn names(v: Vec<String>) -> Seq<Seq<char>> {
    v@.map_values(|s: String| s@)
}

pub open spec fn opt_name(o: Option<String>) -> Option<Seq<char>> {
    match o {
        Some(s) => Some(s@),
        None => None,
    }
}

/// The mathematical content of a [`State`]; per-player fields are sequences of length 2.
pub struct StateModel {
    pub board: Seq<i8>,
    pub current_player: nat,
    pub turn: nat,
    pub status: GameStatus,
    pub start_policy: StartPolicy,
    pub start_assignment: Seq<Option<StartPoint>>,
    pub remaining_pieces: Seq<Seq<Seq<char>>>,
    pub placed_pieces: Seq<Seq<Seq<char>>>,
    pub last_placed_piece: Seq<Option<Seq<char>>>,
    pub forced_passed: Seq<bool>,
    pub consecutive_passes: nat,
}

impl View for State {
    type V = StateModel;

    open spec fn view(&self) -> StateModel {
        StateModel {
            board: self.board@,
            current_player: self.current_player as nat,
            turn: self.turn as nat,
            status: self.status,
            start_policy: self.start_policy,
            start_assignment: self.start_assignment@,
            remaining_pieces: seq![names(self.remaining_pieces[0]), names(self.remaining_pieces[1])],
            placed_pieces: seq![names(self.placed_pieces[0]), names(self.placed_pieces[1])],
            last_placed_piece: seq![
                opt_name(self.last_placed_piece[0]),
                opt_name(self.last_placed_piece[1]),
            ],
            forced_passed: self.forced_passed@,
            consecutive_passes: self.consecutive_passes as nat,
        }
    }
}

impl StateModel {
    /// The shape every state has: a full board, two players and a valid current player.
    pub open spec fn wf(self) -> bool {
        &&& self.board.len() == BOARD_CELLS
        &&& self.current_player < 2
        &&& self.start_assignment.len() == 2
        &&& self.remaining_pieces.len() == 2
        &&& self.placed_pieces.len() == 2
        &&& self.last_placed_piece.len() == 2
        &&& self.forced_passed.len() == 2
    }
}

impl State {
    pub open spec fn wf(&self) -> bool {
        self.current_player < 2
    }
}

fn clone_names(v: &Vec<String>) -> (r: Vec<String>)
    ensures
        names(r) == names(*v),
{
    let r = v.clone();
    assert(names(r) =~= names(*v));
    r
}

fn clone_opt_name(o: &Option<String>) -> (r: Option<String>)
    ensures
        opt_name(r) == opt_name(*o),
{
    match o {
        Some(s) => Some(s.clone()),
        None => None,
    }
}

impl Clone for State {
    fn clone(&self) -> (r: Self)
        ensures
            r@ == self@,
            r.wf() == self.wf(),
    {
        State {
            board: self.board,
            current_player: self.current_player,
            turn: self.turn,
            status: self.status,
            start_policy: self.start_policy,
            start_assignment: self.start_assignment,
            remaining_pieces: [
                clone_names(&self.remaining_pieces[0]),
                clone_names(&self.remaining_pieces[1]),
            ],
            placed_pieces: [clone_names(&self.placed_pieces[0]), clone_names(&self.placed_pieces[1])],
            last_placed_piece: [
                clone_opt_name(&self.last_placed_piece[0]),
                clone_opt_name(&self.last_placed_piece[1]),
            ],
            forced_passed: self.forced_passed,
            consecutive_passes: self.consecutive_passes,
        }
    }
}

/// The other player.
pub fn other(player: usize) -> (r: usize)
    ensures
        r == (if player == 0 { 1usize } else { 0usize }),
{
    if player == 0 {
        1
    } else {
        0
    }
}

} // verus!
