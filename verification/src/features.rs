//! The input planes of the policy-value network, seen from one player:
//! the board turned so that the player starts at `(0, 0)`, the corner cells
//! where each side may extend, the cells each side may not use, the start
//! points, and the pieces each side still holds.
use vstd::prelude::*;
use vstd::arithmetic::div_mod::lemma_fundamental_div_mod_converse;
use crate::table::{piece_name, BOARD_CELLS, BOARD_SIZE, EMPTY, PIECE_COUNT, STATE_PLANES};
use crate::pieces::piece_id_string;
use crate::types::{other, names, StartPoint, State, StateModel};
use crate::rules::{cell_at, contains_name, in_bounds, start_cell};
use crate::game::other_player;

verus! {

/// Board coordinates seen from `player`: player 1 sees the board turned half way round.
pub open spec fn normalize(player: nat, x: int, y: int) -> (int, int) {
    if player == 0 {
        (x, y)
    } else {
        (BOARD_SIZE - 1 - x, BOARD_SIZE - 1 - y)
    }
}

/// The owner of cell `(x, y)` as `player` sees the board (`EMPTY` off the board).
pub open spec fn norm_cell(s: StateModel, player: nat, x: int, y: int) -> i8 {
    let c = normalize(player, x, y);
    cell_at(s.board, c.0, c.1)
}

pub open spec fn norm_edge_owned(s: StateModel, player: nat, x: int, y: int, owner: nat) -> bool {
    ||| norm_cell(s, player, x + 1, y) == owner as i8
    ||| norm_cell(s, player, x - 1, y) == owner as i8
    ||| norm_cell(s, player, x, y + 1) == owner as i8
    ||| norm_cell(s, player, x, y - 1) == owner as i8
}

pub open spec fn norm_corner_owned(s: StateModel, player: nat, x: int, y: int, owner: nat) -> bool {
    ||| norm_cell(s, player, x + 1, y + 1) == owner as i8
    ||| norm_cell(s, player, x + 1, y - 1) == owner as i8
    ||| norm_cell(s, player, x - 1, y + 1) == owner as i8
    ||| norm_cell(s, player, x - 1, y - 1) == owner as i8
}

/// The start point of `owner` as `player` sees it.
pub open spec fn start_for_perspective(player: nat, owner: nat) -> (int, int) {
    let p = start_cell(
        if owner == player {
            StartPoint::A
        } else {
            StartPoint::B
        },
    );
    if owner == 0 {
        p
    } else {
        (BOARD_SIZE - 1 - p.0, BOARD_SIZE - 1 - p.1)
    }
}

/// `(x, y)` is a cell where `owner` could extend, as `player` sees the
/// board: before `owner`'s first piece only their start point; afterwards an
/// empty cell touching `owner` at a corner and not along an edge.
pub open spec fn corner_candidate(s: StateModel, player: nat, owner: nat, x: int, y: int) -> bool {
    if s.placed_pieces[owner as int].len() == 0 {
        (x, y) == start_for_perspective(player, owner)
    } else {
        &&& in_bounds(x, y)
        &&& norm_cell(s, player, x, y) == EMPTY
        &&& !norm_edge_owned(s, player, x, y, owner)
        &&& norm_corner_owned(s, player, x, y, owner)
    }
}

/// `(x, y)` is an empty cell next to one of `owner`'s cells, as `player` sees the board.
pub open spec fn forbidden_edge(s: StateModel, player: nat, owner: nat, x: int, y: int) -> bool {
    &&& in_bounds(x, y)
    &&& norm_cell(s, player, x, y) == EMPTY
    &&& norm_edge_owned(s, player, x, y, owner)
}

/// Whether plane `plane` is on at `(x, y)` in the encoding for `player`:
/// 0 own cells, 1 opponent cells, 2 empty cells, 3 and 4 corner candidates,
/// 5 and 6 forbidden edge cells, 7 and 8 start points, 9 to 29 the pieces
/// the player holds, 30 to 50 the pieces the opponent holds.
pub open spec fn plane_on(s: StateModel, player: nat, plane: int, x: int, y: int) -> bool {
    let opponent = other_player(player);
    let cell = norm_cell(s, player, x, y);
    if plane == 0 {
        cell == player as i8
    } else if plane == 1 {
        cell == opponent as i8
    } else if plane == 2 {
        cell == EMPTY
    } else if plane == 3 {
        corner_candidate(s, player, player, x, y)
    } else if plane == 4 {
        corner_candidate(s, player, opponent, x, y)
    } else if plane == 5 {
        forbidden_edge(s, player, player, x, y)
    } else if plane == 6 {
        forbidden_edge(s, player, opponent, x, y)
    } else if plane == 7 {
        (x, y) == start_for_perspective(player, player)
    } else if plane == 8 {
        (x, y) == start_for_perspective(player, opponent)
    } else if plane < 30 {
        s.remaining_pieces[player as int].contains(piece_name(plane - 9))
    } else {
        s.remaining_pieces[opponent as int].contains(piece_name(plane - 30))
    }
}

fn normalize_coord(player: usize, x: usize, y: usize) -> (r: (usize, usize))
    requires
        player < 2,
        x < BOARD_SIZE,
        y < BOARD_SIZE,
    ensures
        (r.0 as int, r.1 as int) == normalize(player as nat, x as int, y as int),
        r.0 < BOARD_SIZE,
        r.1 < BOARD_SIZE,
{
    if player == 0 {
        (x, y)
    } else {
        (BOARD_SIZE - 1 - x, BOARD_SIZE - 1 - y)
    }
}

fn normalized_board_cell(state: &State, player: usize, x: usize, y: usize) -> (r: i8)
    requires
        player < 2,
        x < BOARD_SIZE,
        y < BOARD_SIZE,
    ensures
        r == norm_cell(state@, player as nat, x as int, y as int),
{
    let (nx, ny) = normalize_coord(player, x, y);
    state.board[ny * BOARD_SIZE + nx]
}

/// The owner of `(x, y)` as `player` sees the board, `EMPTY` off the board.
fn normalized_cell_at(state: &State, player: usize, x: isize, y: isize) -> (r: i8)
    requires
        player < 2,
    ensures
        r == norm_cell(state@, player as nat, x as int, y as int),
{
    if x >= 0 && y >= 0 && x < BOARD_SIZE as isize && y < BOARD_SIZE as isize {
        normalized_board_cell(state, player, x as usize, y as usize)
    } else {
        EMPTY
    }
}

fn start_point_for_perspective(player: usize, owner: usize) -> (r: (usize, usize))
    requires
        player < 2,
        owner < 2,
    ensures
        (r.0 as int, r.1 as int) == start_for_perspective(player as nat, owner as nat),
{
    let (x, y): (usize, usize) = if owner == player {
        (0, 0)
    } else {
        (13, 13)
    };
    if owner == 0 {
        (x, y)
    } else {
        (BOARD_SIZE - 1 - x, BOARD_SIZE - 1 - y)
    }
}

fn edge_owned_normalized(state: &State, player: usize, x: usize, y: usize, owner: usize) -> (r:
    bool)
    requires
        player < 2,
        owner < 2,
        x < BOARD_SIZE,
        y < BOARD_SIZE,
    ensures
        r == norm_edge_owned(state@, player as nat, x as int, y as int, owner as nat),
{
    let o = owner as i8;
    let x = x as isize;
    let y = y as isize;
    normalized_cell_at(state, player, x + 1, y) == o || normalized_cell_at(state, player, x - 1, y)
        == o || normalized_cell_at(state, player, x, y + 1) == o || normalized_cell_at(
        state,
        player,
        x,
        y - 1,
    ) == o
}

fn corner_owned_normalized(state: &State, player: usize, x: usize, y: usize, owner: usize) -> (r:
    bool)
    requires
        player < 2,
        owner < 2,
        x < BOARD_SIZE,
        y < BOARD_SIZE,
    ensures
        r == norm_corner_owned(state@, player as nat, x as int, y as int, owner as nat),
{
    let o = owner as i8;
    let x = x as isize;
    let y = y as isize;
    normalized_cell_at(state, player, x + 1, y + 1) == o || normalized_cell_at(
        state,
        player,
        x + 1,
        y - 1,
    ) == o || normalized_cell_at(state, player, x - 1, y + 1) == o || normalized_cell_at(
        state,
        player,
        x - 1,
        y - 1,
    ) == o
}

proof fn lemma_cell_coords(c: int)
    requires
        0 <= c < BOARD_CELLS,
    ensures
        c == (c / (BOARD_SIZE as int)) * BOARD_SIZE + c % (BOARD_SIZE as int),
        0 <= c / (BOARD_SIZE as int) < BOARD_SIZE,
        0 <= c % (BOARD_SIZE as int) < BOARD_SIZE,
{
}

/// The corner candidates of `owner` as `player` sees the board, one flag per cell.
fn compute_corner_candidates(state: &State, player: usize, owner: usize) -> (r: Vec<bool>)
    requires
        player < 2,
        owner < 2,
    ensures
        r@.len() == BOARD_CELLS,
        forall|x: int, y: int|
            0 <= x < BOARD_SIZE && 0 <= y < BOARD_SIZE ==> #[trigger] r@[y * BOARD_SIZE + x]
                == corner_candidate(state@, player as nat, owner as nat, x, y),
{
    let first = state.placed_pieces[owner].len() == 0;
    let start = start_point_for_perspective(player, owner);
    let mut r: Vec<bool> = Vec::new();
    let mut c: usize = 0;
    while c < BOARD_CELLS
        invariant
            player < 2,
            owner < 2,
            first == (state@.placed_pieces[owner as int].len() == 0),
            (start.0 as int, start.1 as int) == start_for_perspective(player as nat, owner as nat),
            c <= BOARD_CELLS,
            r@.len() == c,
            forall|k: int|
                0 <= k < c ==> #[trigger] r@[k] == corner_candidate(
                    state@,
                    player as nat,
                    owner as nat,
                    k % (BOARD_SIZE as int),
                    k / (BOARD_SIZE as int),
                ),
        decreases BOARD_CELLS - c,
    {
        proof {
            lemma_cell_coords(c as int);
        }
        let x = c % BOARD_SIZE;
        let y = c / BOARD_SIZE;
        let on = if first {
            x == start.0 && y == start.1
        } else {
            normalized_board_cell(state, player, x, y) == EMPTY && !edge_owned_normalized(
                state,
                player,
                x,
                y,
                owner,
            ) && corner_owned_normalized(state, player, x, y, owner)
        };
        r.push(on);
        c = c + 1;
    }
    proof {
        assert forall|x: int, y: int| 0 <= x < BOARD_SIZE && 0 <= y < BOARD_SIZE implies #[trigger] r@[y
            * BOARD_SIZE + x] == corner_candidate(state@, player as nat, owner as nat, x, y) by {
            lemma_fundamental_div_mod_converse(y * BOARD_SIZE + x, BOARD_SIZE as int, y, x);
        }
    }
    r
}

/// The forbidden edge cells of `owner` as `player` sees the board, one flag per cell.
fn compute_forbidden_edge_cells(state: &State, player: usize, owner: usize) -> (r: Vec<bool>)
    requires
        player < 2,
        owner < 2,
    ensures
        r@.len() == BOARD_CELLS,
        forall|x: int, y: int|
            0 <= x < BOARD_SIZE && 0 <= y < BOARD_SIZE ==> #[trigger] r@[y * BOARD_SIZE + x]
                == forbidden_edge(state@, player as nat, owner as nat, x, y),
{
    let mut r: Vec<bool> = Vec::new();
    let mut c: usize = 0;
    while c < BOARD_CELLS
        invariant
            player < 2,
            owner < 2,
            c <= BOARD_CELLS,
            r@.len() == c,
            forall|k: int|
                0 <= k < c ==> #[trigger] r@[k] == forbidden_edge(
                    state@,
                    player as nat,
                    owner as nat,
                    k % (BOARD_SIZE as int),
                    k / (BOARD_SIZE as int),
                ),
        decreases BOARD_CELLS - c,
    {
        proof {
            lemma_cell_coords(c as int);
        }
        let x = c % BOARD_SIZE;
        let y = c / BOARD_SIZE;
        let on = normalized_board_cell(state, player, x, y) == EMPTY && edge_owned_normalized(
            state,
            player,
            x,
            y,
            owner,
        );
        r.push(on);
        c = c + 1;
    }
    proof {
        assert forall|x: int, y: int| 0 <= x < BOARD_SIZE && 0 <= y < BOARD_SIZE implies #[trigger] r@[y
            * BOARD_SIZE + x] == forbidden_edge(state@, player as nat, owner as nat, x, y) by {
            lemma_fundamental_div_mod_converse(y * BOARD_SIZE + x, BOARD_SIZE as int, y, x);
        }
    }
    r
}

/// For each piece, whether `player` still holds it.
fn hand_flags(state: &State, player: usize) -> (r: Vec<bool>)
    requires
        player < 2,
    ensures
        r@.len() == PIECE_COUNT,
        forall|i: int|
            0 <= i < PIECE_COUNT ==> #[trigger] r@[i] == state@.remaining_pieces[player as int].contains(
                piece_name(i),
            ),
{
    let mut r: Vec<bool> = Vec::new();
    let mut i: usize = 0;
    while i < PIECE_COUNT
        invariant
            player < 2,
            i <= PIECE_COUNT,
            r@.len() == i,
            forall|k: int|
                0 <= k < i ==> #[trigger] r@[k] == state@.remaining_pieces[player as int].contains(
                    piece_name(k),
                ),
        decreases PIECE_COUNT - i,
    {
        let name = piece_id_string(i);
        r.push(contains_name(&state.remaining_pieces[player], &name));
        i = i + 1;
    }
    r
}

/// The encoding of `state` for `player`: `STATE_PLANES` planes of
/// `BOARD_CELLS` cells each, plane after plane, cells row by row; a cell is
/// 1 where its plane is on and 0 elsewhere.
pub fn encode_state_tensor(state: &State, player: usize) -> (r: Vec<u8>)
    requires
        player < 2,
    ensures
        r@.len() == STATE_PLANES * BOARD_CELLS,
        forall|plane: int, x: int, y: int|
            0 <= plane < STATE_PLANES && 0 <= x < BOARD_SIZE && 0 <= y < BOARD_SIZE
                ==> #[trigger] r@[plane * BOARD_CELLS + y * BOARD_SIZE + x] == (if plane_on(
                state@,
                player as nat,
                plane,
                x,
                y,
            ) {
                1u8
            } else {
                0u8
            }),
{
    let opponent = other(player);
    let my_corners = compute_corner_candidates(state, player, player);
    let opp_corners = compute_corner_candidates(state, player, opponent);
    let my_forbidden = compute_forbidden_edge_cells(state, player, player);
    let opp_forbidden = compute_forbidden_edge_cells(state, player, opponent);
    let my_start = start_point_for_perspective(player, player);
    let opp_start = start_point_for_perspective(player, opponent);
    let my_hand = hand_flags(state, player);
    let opp_hand = hand_flags(state, opponent);
    let ghost s = state@;
    let ghost p = player as nat;
    let mut planes: Vec<u8> = Vec::new();
    let mut plane: usize = 0;
    while plane < STATE_PLANES
        invariant
            player < 2,
            opponent == other_player(p),
            p == player,
            s == state@,
            plane <= STATE_PLANES,
            planes@.len() == plane * BOARD_CELLS,
            my_corners@.len() == BOARD_CELLS,
            opp_corners@.len() == BOARD_CELLS,
            my_forbidden@.len() == BOARD_CELLS,
            opp_forbidden@.len() == BOARD_CELLS,
            my_hand@.len() == PIECE_COUNT,
            opp_hand@.len() == PIECE_COUNT,
            forall|x: int, y: int|
                0 <= x < BOARD_SIZE && 0 <= y < BOARD_SIZE ==> #[trigger] my_corners@[y * BOARD_SIZE
                    + x] == corner_candidate(s, p, p, x, y),
            forall|x: int, y: int|
                0 <= x < BOARD_SIZE && 0 <= y < BOARD_SIZE ==> #[trigger] opp_corners@[y * BOARD_SIZE
                    + x] == corner_candidate(s, p, opponent as nat, x, y),
            forall|x: int, y: int|
                0 <= x < BOARD_SIZE && 0 <= y < BOARD_SIZE ==> #[trigger] my_forbidden@[y
                    * BOARD_SIZE + x] == forbidden_edge(s, p, p, x, y),
            forall|x: int, y: int|
                0 <= x < BOARD_SIZE && 0 <= y < BOARD_SIZE ==> #[trigger] opp_forbidden@[y
                    * BOARD_SIZE + x] == forbidden_edge(s, p, opponent as nat, x, y),
            (my_start.0 as int, my_start.1 as int) == start_for_perspective(p, p),
            (opp_start.0 as int, opp_start.1 as int) == start_for_perspective(p, opponent as nat),
            forall|i: int|
                0 <= i < PIECE_COUNT ==> #[trigger] my_hand@[i] == s.remaining_pieces[p as int].contains(
                    piece_name(i),
                ),
            forall|i: int|
                0 <= i < PIECE_COUNT ==> #[trigger] opp_hand@[i] == s.remaining_pieces[opponent as int].contains(
                    piece_name(i),
                ),
            forall|q: int, x: int, y: int|
                0 <= q < plane && 0 <= x < BOARD_SIZE && 0 <= y < BOARD_SIZE
                    ==> #[trigger] planes@[q * BOARD_CELLS + y * BOARD_SIZE + x] == (if plane_on(
                    s,
                    p,
                    q,
                    x,
                    y,
                ) {
                    1u8
                } else {
                    0u8
                }),
        decreases STATE_PLANES - plane,
    {
        let mut c: usize = 0;
        while c < BOARD_CELLS
            invariant
                player < 2,
                opponent == other_player(p),
                p == player,
                s == state@,
                plane < STATE_PLANES,
                c <= BOARD_CELLS,
                planes@.len() == plane * BOARD_CELLS + c,
                my_corners@.len() == BOARD_CELLS,
                opp_corners@.len() == BOARD_CELLS,
                my_forbidden@.len() == BOARD_CELLS,
                opp_forbidden@.len() == BOARD_CELLS,
                my_hand@.len() == PIECE_COUNT,
                opp_hand@.len() == PIECE_COUNT,
                forall|x: int, y: int|
                    0 <= x < BOARD_SIZE && 0 <= y < BOARD_SIZE ==> #[trigger] my_corners@[y
                        * BOARD_SIZE + x] == corner_candidate(s, p, p, x, y),
                forall|x: int, y: int|
                    0 <= x < BOARD_SIZE && 0 <= y < BOARD_SIZE ==> #[trigger] opp_corners@[y
                        * BOARD_SIZE + x] == corner_candidate(s, p, opponent as nat, x, y),
                forall|x: int, y: int|
                    0 <= x < BOARD_SIZE && 0 <= y < BOARD_SIZE ==> #[trigger] my_forbidden@[y
                        * BOARD_SIZE + x] == forbidden_edge(s, p, p, x, y),
                forall|x: int, y: int|
                    0 <= x < BOARD_SIZE && 0 <= y < BOARD_SIZE ==> #[trigger] opp_forbidden@[y
                        * BOARD_SIZE + x] == forbidden_edge(s, p, opponent as nat, x, y),
                (my_start.0 as int, my_start.1 as int) == start_for_perspective(p, p),
                (opp_start.0 as int, opp_start.1 as int) == start_for_perspective(p, opponent as nat),
                forall|i: int|
                    0 <= i < PIECE_COUNT ==> #[trigger] my_hand@[i] == s.remaining_pieces[p as int].contains(
                        piece_name(i),
                    ),
                forall|i: int|
                    0 <= i < PIECE_COUNT ==> #[trigger] opp_hand@[i] == s.remaining_pieces[opponent as int].contains(
                        piece_name(i),
                    ),
                forall|q: int, x: int, y: int|
                    0 <= q < plane && 0 <= x < BOARD_SIZE && 0 <= y < BOARD_SIZE
                        ==> #[trigger] planes@[q * BOARD_CELLS + y * BOARD_SIZE + x] == (if plane_on(
                        s,
                        p,
                        q,
                        x,
                        y,
                    ) {
                        1u8
                    } else {
                        0u8
                    }),
                forall|k: int|
                    0 <= k < c ==> #[trigger] planes@[plane * BOARD_CELLS + k] == (if plane_on(
                        s,
                        p,
                        plane as int,
                        k % (BOARD_SIZE as int),
                        k / (BOARD_SIZE as int),
                    ) {
                        1u8
                    } else {
                        0u8
                    }),
            decreases BOARD_CELLS - c,
        {
            proof {
                lemma_cell_coords(c as int);
            }
            let x = c % BOARD_SIZE;
            let y = c / BOARD_SIZE;
            let ghost before = planes@;
            let cell = normalized_board_cell(state, player, x, y);
            let on = if plane == 0 {
                cell == player as i8
            } else if plane == 1 {
                cell == opponent as i8
            } else if plane == 2 {
                cell == EMPTY
            } else if plane == 3 {
                my_corners[c]
            } else if plane == 4 {
                opp_corners[c]
            } else if plane == 5 {
                my_forbidden[c]
            } else if plane == 6 {
                opp_forbidden[c]
            } else if plane == 7 {
                x == my_start.0 && y == my_start.1
            } else if plane == 8 {
                x == opp_start.0 && y == opp_start.1
            } else if plane < 30 {
                my_hand[plane - 9]
            } else {
                opp_hand[plane - 30]
            };
            planes.push(if on { 1u8 } else { 0u8 });
            proof {
                assert(BOARD_CELLS == 196);
                assert forall|q: int, x: int, y: int|
                    0 <= q < plane && 0 <= x < BOARD_SIZE && 0 <= y < BOARD_SIZE
                        implies #[trigger] planes@[q * BOARD_CELLS + y * BOARD_SIZE + x] == before[q
                        * BOARD_CELLS + y * BOARD_SIZE + x] by {
                    assert(q * 196 + 196 <= plane * 196) by (nonlinear_arith)
                        requires
                            q < plane,
                    ;
                }
            }
            c = c + 1;
        }
        proof {
            assert(BOARD_CELLS == 196);
            assert((plane + 1) * 196 == plane * 196 + 196) by (nonlinear_arith);
            assert forall|q: int, x: int, y: int|
                0 <= q < plane + 1 && 0 <= x < BOARD_SIZE && 0 <= y < BOARD_SIZE
                    implies #[trigger] planes@[q * BOARD_CELLS + y * BOARD_SIZE + x] == (if plane_on(
                    s,
                    p,
                    q,
                    x,
                    y,
                ) {
                    1u8
                } else {
                    0u8
                }) by {
                if q == plane {
                    lemma_fundamental_div_mod_converse(y * BOARD_SIZE + x, BOARD_SIZE as int, y, x);
                    assert(planes@[plane * BOARD_CELLS + (y * BOARD_SIZE + x)] == (if plane_on(
                        s,
                        p,
                        plane as int,
                        x,
                        y,
                    ) {
                        1u8
                    } else {
                        0u8
                    }));
                }
            }
        }
        plane = plane + 1;
    }
    planes
}

/// What each plane of the encoding for `player` holds at `(x, y)`, over the
/// board itself. Player 1 sees the board turned half way round, so the cell
/// at `(x + dx, y + dy)` of its view is the board's `(13 - x - dx, 13 - y - dy)`.
/// Planes 0, 1 and 2 mark the player's cells, the opponent's cells and the
/// empty cells. Planes 5 and 6 mark the empty cells with an edge neighbour
/// of the player, respectively of the opponent. Planes 3 and 4 mark, for the
/// player and for the opponent, the empty cells with no edge neighbour and
/// some diagonal neighbour of that side; before that side's first piece they
/// mark only the start cell of the view, which planes 7 and 8 also mark:
/// `(0, 0)` in the first player's view and `(13, 13)` in the second's.
/// Planes 9 to 29 and 30 to 50 mark the pieces still held by the player and
/// by the opponent, in the order of `PIECE_IDS`.
pub proof fn lemma_plane_rules(s: StateModel, player: nat, x: int, y: int)
    requires
        player < 2,
        0 <= x < BOARD_SIZE,
        0 <= y < BOARD_SIZE,
    ensures
        ({
            let p = player;
            let o = 1 - p;
            let c = |dx: int, dy: int|
                cell_at(
                    s.board,
                    if p == 0 {
                        x + dx
                    } else {
                        13 - x - dx
                    },
                    if p == 0 {
                        y + dy
                    } else {
                        13 - y - dy
                    },
                );
            let start = if p == 0 {
                x == 0 && y == 0
            } else {
                x == 13 && y == 13
            };
            &&& plane_on(s, p, 0, x, y) == (c(0, 0) == p as i8)
            &&& plane_on(s, p, 1, x, y) == (c(0, 0) == o as i8)
            &&& plane_on(s, p, 2, x, y) == (c(0, 0) == EMPTY)
            &&& plane_on(s, p, 3, x, y) == (if s.placed_pieces[p as int].len() == 0 {
                start
            } else {
                &&& c(0, 0) == EMPTY
                &&& c(1, 0) != p as i8 && c(-1, 0) != p as i8 && c(0, 1) != p as i8 && c(0, -1)
                    != p as i8
                &&& c(1, 1) == p as i8 || c(1, -1) == p as i8 || c(-1, 1) == p as i8 || c(-1, -1)
                    == p as i8
            })
            &&& plane_on(s, p, 4, x, y) == (if s.placed_pieces[o as int].len() == 0 {
                start
            } else {
                &&& c(0, 0) == EMPTY
                &&& c(1, 0) != o as i8 && c(-1, 0) != o as i8 && c(0, 1) != o as i8 && c(0, -1)
                    != o as i8
                &&& c(1, 1) == o as i8 || c(1, -1) == o as i8 || c(-1, 1) == o as i8 || c(-1, -1)
                    == o as i8
            })
            &&& plane_on(s, p, 5, x, y) == (c(0, 0) == EMPTY && (c(1, 0) == p as i8 || c(-1, 0)
                == p as i8 || c(0, 1) == p as i8 || c(0, -1) == p as i8))
            &&& plane_on(s, p, 6, x, y) == (c(0, 0) == EMPTY && (c(1, 0) == o as i8 || c(-1, 0)
                == o as i8 || c(0, 1) == o as i8 || c(0, -1) == o as i8))
            &&& plane_on(s, p, 7, x, y) == start
            &&& plane_on(s, p, 8, x, y) == start
            &&& forall|k: int|
                0 <= k < PIECE_COUNT ==> #[trigger] plane_on(s, p, 9 + k, x, y) == s.remaining_pieces[p as int].contains(
                    piece_name(k),
                )
            &&& forall|k: int|
                0 <= k < PIECE_COUNT ==> #[trigger] plane_on(s, p, 30 + k, x, y) == s.remaining_pieces[o as int].contains(
                    piece_name(k),
                )
        }),
{
}

} // verus!
