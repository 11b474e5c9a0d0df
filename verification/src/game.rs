//! Game flow: the initial state, the legal moves of a position, applying a
//! move and detecting the end of the game.
use vstd::prelude::*;
use crate::table::{piece_name, BOARD_CELLS, BOARD_SIZE, EMPTY, PIECE_COUNT, PIECE_IDS};
use crate::pieces::piece_id_string;
use crate::types::{
    names, other, GameStatus, Move, MoveModel, StartPoint, StartPolicy, State, StateModel,
};
use crate::rules::{
    cell_index, cells_for_move, cells_view, covers, covers_start_point, generate_legal_placements_for_player,
    has_legal_placement_for, in_bounds, lemma_legal_placement_shape, lemma_shifted_on_board,
    legal_move, legal_moves_in_order, legal_placement, move_cells, moves_view, with_player,
};
use crate::table::orientation_cells;

verus! {

/// The names of all pieces, in the order of `PIECE_IDS`.
pub open spec fn all_piece_names() -> Seq<Seq<char>> {
    Seq::new(PIECE_COUNT as nat, |i: int| piece_name(i))
}

/// The state a game starts from under `start_policy`.
pub open spec fn initial_state(start_policy: StartPolicy) -> StateModel {
    StateModel {
        board: Seq::new(BOARD_CELLS as nat, |i: int| EMPTY),
        current_player: 0,
        turn: 0,
        status: GameStatus::Playing,
        start_policy,
        start_assignment: if start_policy == StartPolicy::FixedStart {
            seq![Some(StartPoint::A), Some(StartPoint::B)]
        } else {
            seq![None, None]
        },
        remaining_pieces: seq![all_piece_names(), all_piece_names()],
        placed_pieces: seq![Seq::empty(), Seq::empty()],
        last_placed_piece: seq![None, None],
        forced_passed: seq![false, false],
        consecutive_passes: 0,
    }
}

pub open spec fn other_player(player: nat) -> nat {
    if player == 0 {
        1
    } else {
        0
    }
}

pub open spec fn opposite(point: StartPoint) -> StartPoint {
    match point {
        StartPoint::A => StartPoint::B,
        StartPoint::B => StartPoint::A,
    }
}

/// `list` without the first entry equal to `name` (unchanged if there is none).
pub open spec fn remove_first(list: Seq<Seq<char>>, name: Seq<char>) -> Seq<Seq<char>>
    decreases list.len(),
{
    if list.len() == 0 {
        list
    } else if list[0] == name {
        list.subrange(1, list.len() as int)
    } else {
        seq![list[0]] + remove_first(list.subrange(1, list.len() as int), name)
    }
}

/// `board` with every cell of `cells` given to `player`.
pub open spec fn paint(board: Seq<i8>, cells: Seq<(int, int)>, player: i8) -> Seq<i8>
    decreases cells.len(),
{
    if cells.len() == 0 {
        board
    } else {
        paint(board, cells.drop_last(), player).update(
            cell_index(cells.last().0, cells.last().1),
            player,
        )
    }
}

/// After a player's first piece under `ChooseStart`, the start point it
/// covered (A if it covers A, else B) becomes theirs and the other one the opponent's.
pub open spec fn assign_start(s: StateModel, player: nat, cells: Seq<(int, int)>) -> StateModel {
    if s.start_policy != StartPolicy::ChooseStart || s.start_assignment[player as int] is Some {
        s
    } else {
        let chosen = if covers(cells, StartPoint::A) {
            StartPoint::A
        } else {
            StartPoint::B
        };
        StateModel {
            start_assignment: s.start_assignment.update(player as int, Some(chosen)).update(
                other_player(player) as int,
                Some(opposite(chosen)),
            ),
            ..s
        }
    }
}

/// The game is over: both players have placed every piece, or neither can place one.
pub open spec fn is_terminal_state(s: StateModel) -> bool {
    ||| (s.remaining_pieces[0].len() == 0 && s.remaining_pieces[1].len() == 0)
    ||| (!has_legal_placement_for(s, 0) && !has_legal_placement_for(s, 1))
}

/// Ends the game if it is over, else hands the turn to the other player.
pub open spec fn advance(s: StateModel) -> StateModel {
    if is_terminal_state(s) {
        StateModel { status: GameStatus::Finished, ..s }
    } else {
        StateModel { current_player: other_player(s.current_player), turn: s.turn + 1, ..s }
    }
}

pub open spec fn apply_pass(s: StateModel, player: nat) -> StateModel {
    StateModel {
        forced_passed: s.forced_passed.update(player as int, true),
        consecutive_passes: s.consecutive_passes + 1,
        ..s
    }
}

pub open spec fn apply_place(s: StateModel, m: MoveModel) -> StateModel {
    let p = m->Place_player;
    let piece = m->Place_piece_id;
    let cells = move_cells(m);
    let placed = StateModel {
        board: paint(s.board, cells, p as i8),
        remaining_pieces: s.remaining_pieces.update(
            p as int,
            remove_first(s.remaining_pieces[p as int], piece),
        ),
        placed_pieces: s.placed_pieces.update(p as int, s.placed_pieces[p as int].push(piece)),
        last_placed_piece: s.last_placed_piece.update(p as int, Some(piece)),
        forced_passed: s.forced_passed.update(p as int, false),
        consecutive_passes: 0,
        ..s
    };
    if placed.placed_pieces[p as int].len() == 1 {
        assign_start(placed, p, cells)
    } else {
        placed
    }
}

/// The state after the legal move `m`.
pub open spec fn next_state(s: StateModel, m: MoveModel) -> StateModel {
    advance(
        match m {
            MoveModel::Pass { player } => apply_pass(s, player),
            MoveModel::Place { .. } => apply_place(s, m),
        },
    )
}

fn piece_ids_vec() -> (r: Vec<String>)
    ensures
        names(r) == all_piece_names(),
{
    let mut r: Vec<String> = Vec::new();
    let mut i: usize = 0;
    while i < PIECE_COUNT
        invariant
            i <= PIECE_COUNT,
            names(r) == all_piece_names().take(i as int),
        decreases PIECE_COUNT - i,
    {
        let ghost before = names(r);
        let name = piece_id_string(i);
        r.push(name);
        assert(names(r) =~= before.push(name@));
        assert(all_piece_names().take(i + 1) =~= all_piece_names().take(i as int).push(
            piece_name(i as int),
        ));
        i = i + 1;
    }
    assert(all_piece_names().take(PIECE_COUNT as int) =~= all_piece_names());
    r
}

/// A fresh game: empty board, player 0 to move, every piece in both hands.
pub fn create_initial_state(start_policy: StartPolicy) -> (r: State)
    ensures
        r@ == initial_state(start_policy),
        r.wf(),
{
    let fixed = start_policy == StartPolicy::FixedStart;
    let r = State {
        board: [EMPTY; BOARD_CELLS],
        current_player: 0,
        turn: 0,
        status: GameStatus::Playing,
        start_policy,
        start_assignment: if fixed {
            [Some(StartPoint::A), Some(StartPoint::B)]
        } else {
            [None, None]
        },
        remaining_pieces: [piece_ids_vec(), piece_ids_vec()],
        placed_pieces: [Vec::new(), Vec::new()],
        last_placed_piece: [None, None],
        forced_passed: [false, false],
        consecutive_passes: 0,
    };
    assert(r@.board =~= initial_state(start_policy).board);
    assert(r@.start_assignment =~= initial_state(start_policy).start_assignment);
    assert(names(r.placed_pieces[0]) =~= Seq::<Seq<char>>::empty());
    assert(names(r.placed_pieces[1]) =~= Seq::<Seq<char>>::empty());
    assert(r@.forced_passed =~= seq![false, false]);
    r
}

/// The legal moves of `state`: its legal placements, or a single pass when
/// there is none; nothing once the game is finished.
pub fn generate_legal_moves(state: &State) -> (r: Vec<Move>)
    requires
        state.status == GameStatus::Playing ==> state.current_player < 2,
    ensures
        forall|i: int| 0 <= i < r@.len() ==> legal_move(state@, #[trigger] moves_view(r)[i]),
        forall|m: MoveModel| legal_move(state@, m) ==> #[trigger] moves_view(r).contains(m),
        state.status == GameStatus::Playing <==> r@.len() > 0,
        state@.remaining_pieces[state@.current_player as int].no_duplicates() ==> moves_view(
            r,
        ).no_duplicates(),
        moves_view(r) == legal_moves_in_order(state@),
{
    let ghost s = state@;
    assert(with_player(s, s.current_player) == s);
    if state.status != GameStatus::Playing {
        let r: Vec<Move> = Vec::new();
        proof {
            assert(moves_view(r) =~= Seq::<MoveModel>::empty());
            assert forall|m: MoveModel| legal_move(s, m) implies #[trigger] moves_view(r).contains(m) by {
                if legal_placement(s, m) {
                    lemma_legal_placement_shape(s, m);
                }
            }
        }
        return r;
    }
    let placements = generate_legal_placements_for_player(state, state.current_player);
    if placements.len() == 0 {
        let r = vec![Move::Pass { player: state.current_player }];
        proof {
            assert(moves_view(r) =~= seq![MoveModel::Pass { player: s.current_player }]);
            assert(moves_view(r).no_duplicates());
            assert(!has_legal_placement_for(s, s.current_player)) by {
                if has_legal_placement_for(s, s.current_player) {
                    let m = choose|m: MoveModel| #[trigger] legal_placement(with_player(s, s.current_player), m);
                    assert(moves_view(placements).contains(m));
                }
            }
            assert(moves_view(r)[0] == MoveModel::Pass { player: s.current_player });
            assert forall|m: MoveModel| legal_move(s, m) implies #[trigger] moves_view(r).contains(m) by {
                if legal_placement(s, m) {
                    assert(moves_view(placements).contains(m));
                }
            }
        }
        r
    } else {
        proof {
            assert(legal_placement(s, moves_view(placements)[0]));
            assert(has_legal_placement_for(s, s.current_player));
        }
        placements
    }
}

/// Two moves are the same move.
fn same_move(a: &Move, b: &Move) -> (r: bool)
    ensures
        r == (a@ == b@),
{
    match (a, b) {
        (Move::Pass { player: pa }, Move::Pass { player: pb }) => pa == pb,
        (
            Move::Place {
                player: pa,
                piece_id: piece_a,
                orientation_global_id: orientation_a,
                x: xa,
                y: ya,
            },
            Move::Place {
                player: pb,
                piece_id: piece_b,
                orientation_global_id: orientation_b,
                x: xb,
                y: yb,
            },
        ) => {
            pa == pb && *piece_a == *piece_b && orientation_a == orientation_b && xa == xb && ya == yb
        },
        _ => false,
    }
}

proof fn lemma_remove_first_at(list: Seq<Seq<char>>, name: Seq<char>, i: int)
    requires
        0 <= i < list.len(),
        list[i] == name,
        forall|k: int| 0 <= k < i ==> list[k] != name,
    ensures
        remove_first(list, name) == list.remove(i),
    decreases i,
{
    if i > 0 {
        let tail = list.subrange(1, list.len() as int);
        lemma_remove_first_at(tail, name, i - 1);
        assert(seq![list[0]] + tail.remove(i - 1) =~= list.remove(i));
    } else {
        assert(list.subrange(1, list.len() as int) =~= list.remove(0));
    }
}

proof fn lemma_remove_first_absent(list: Seq<Seq<char>>, name: Seq<char>)
    requires
        forall|k: int| 0 <= k < list.len() ==> list[k] != name,
    ensures
        remove_first(list, name) == list,
    decreases list.len(),
{
    if list.len() > 0 {
        let tail = list.subrange(1, list.len() as int);
        lemma_remove_first_absent(tail, name);
        assert(seq![list[0]] + tail =~= list);
    }
}

/// Removes the first piece named `piece_id` from the list, if there is one.
fn remove_piece(piece_list: &mut Vec<String>, piece_id: &str)
    ensures
        names(*final(piece_list)) == remove_first(names(*old(piece_list)), piece_id@),
{
    let key = piece_id.to_owned();
    let ghost list = names(*piece_list);
    let mut i: usize = 0;
    while i < piece_list.len()
        invariant
            key@ == piece_id@,
            *piece_list == *old(piece_list),
            list == names(*piece_list),
            i <= piece_list.len(),
            forall|k: int| 0 <= k < i ==> list[k] != piece_id@,
        decreases piece_list.len() - i,
    {
        if piece_list[i] == key {
            proof {
                lemma_remove_first_at(list, piece_id@, i as int);
            }
            piece_list.remove(i);
            assert(names(*piece_list) =~= list.remove(i as int));
            return;
        }
        i = i + 1;
    }
    proof {
        lemma_remove_first_absent(list, piece_id@);
    }
}

/// Gives every cell of `cells` to `player`.
fn paint_cells(board: &mut [i8; BOARD_CELLS], cells: &Vec<(usize, usize)>, player: usize)
    requires
        player < 2,
        forall|k: int|
            0 <= k < cells_view(*cells).len() ==> in_bounds(
                #[trigger] cells_view(*cells)[k].0,
                cells_view(*cells)[k].1,
            ),
    ensures
        final(board)@ == paint(old(board)@, cells_view(*cells), player as i8),
{
    let ghost cv = cells_view(*cells);
    let ghost board0 = board@;
    let mut i: usize = 0;
    while i < cells.len()
        invariant
            i <= cells.len(),
            player < 2,
            cv == cells_view(*cells),
            board0 == old(board)@,
            forall|k: int| 0 <= k < cv.len() ==> in_bounds(#[trigger] cv[k].0, cv[k].1),
            board@ == paint(board0, cv.take(i as int), player as i8),
        decreases cells.len() - i,
    {
        let (x, y) = cells[i];
        assert(cv[i as int] == (x as int, y as int));
        assert(in_bounds(cv[i as int].0, cv[i as int].1));
        set_cell(board, x, y, player);
        assert(cv.take(i + 1).drop_last() =~= cv.take(i as int));
        i = i + 1;
    }
    assert(cv.take(cv.len() as int) =~= cv);
}

fn set_cell(board: &mut [i8; BOARD_CELLS], x: usize, y: usize, player: usize)
    requires
        x < BOARD_SIZE,
        y < BOARD_SIZE,
        player < 2,
    ensures
        final(board)@ == old(board)@.update(cell_index(x as int, y as int), player as i8),
{
    board[y * BOARD_SIZE + x] = player as i8;
}

fn update_start_assignment_after_first_move(
    state: &mut State,
    player: usize,
    cells: &Vec<(usize, usize)>,
)
    requires
        player < 2,
    ensures
        final(state)@ == assign_start(old(state)@, player as nat, cells_view(*cells)),
        final(state).current_player == old(state).current_player,
{
    if state.start_policy != StartPolicy::ChooseStart || state.start_assignment[player].is_some() {
        return;
    }
    let chosen = if covers_start_point(cells, StartPoint::A) {
        StartPoint::A
    } else {
        StartPoint::B
    };
    let ghost expected = assign_start(state@, player as nat, cells_view(*cells));
    let mut assignment = state.start_assignment;
    assignment[player] = Some(chosen);
    assignment[other(player)] = Some(
        if chosen == StartPoint::A {
            StartPoint::B
        } else {
            StartPoint::A
        },
    );
    assert(assignment@ =~= expected.start_assignment);
    state.start_assignment = assignment;
}

/// `player` has some legal placement in `state`, whoever is to move.
fn has_legal_placement(state: &State, player: usize) -> (r: bool)
    requires
        player < 2,
    ensures
        r == has_legal_placement_for(state@, player as nat),
{
    let placements = generate_legal_placements_for_player(state, player);
    proof {
        if placements.len() > 0 {
            assert(legal_placement(with_player(state@, player as nat), moves_view(placements)[0]));
        }
        if has_legal_placement_for(state@, player as nat) {
            let m = choose|m: MoveModel| #[trigger] legal_placement(with_player(state@, player as nat), m);
            assert(moves_view(placements).contains(m));
        }
    }
    placements.len() != 0
}

/// The game is over: both hands are empty, or neither player can place a piece.
pub fn is_terminal(state: &State) -> (r: bool)
    ensures
        r == is_terminal_state(state@),
{
    (state.remaining_pieces[0].len() == 0 && state.remaining_pieces[1].len() == 0) || (
    !has_legal_placement(state, 0) && !has_legal_placement(state, 1))
}

fn advance_turn_or_finish(state: &mut State)
    requires
        old(state).wf(),
        old(state).turn < usize::MAX,
    ensures
        final(state)@ == advance(old(state)@),
        final(state).wf(),
{
    if is_terminal(state) {
        state.status = GameStatus::Finished;
    } else {
        state.current_player = other(state.current_player);
        state.turn = state.turn + 1;
    }
}

/// Puts the piece of the placement `mv` on the board and updates the hands,
/// the pass bookkeeping and, after a first piece, the start points.
fn place_piece(next: &mut State, mv: &Move)
    requires
        old(next).wf(),
        mv@ is Place,
        mv@->Place_player == old(next).current_player,
    ensures
        final(next)@ == apply_place(old(next)@, mv@),
        final(next).wf(),
        final(next).turn == old(next).turn,
{
    let (player, piece_id) = match mv {
        Move::Place { player, piece_id, .. } => (*player, piece_id),
        Move::Pass { .. } => {
            return;
        },
    };
    let ghost s = next@;
    let cells = cells_for_move(mv);
    let ghost cv = cells_view(cells);
    proof {
        assert forall|k: int| 0 <= k < cv.len() implies in_bounds(#[trigger] cv[k].0, cv[k].1) by {
            if mv@->Place_orientation_global_id < crate::table::ORIENTATION_COUNT {
                lemma_shifted_on_board(
                    orientation_cells(mv@->Place_orientation_global_id as int),
                    mv@->Place_x as int,
                    mv@->Place_y as int,
                    k,
                );
            }
        }
    }
    paint_cells(&mut next.board, &cells, player);
    assert(next@.board == paint(s.board, move_cells(mv@), player as i8));
    remove_piece(&mut next.remaining_pieces[player], piece_id.as_str());
    assert(next@.remaining_pieces =~= s.remaining_pieces.update(
        player as int,
        remove_first(s.remaining_pieces[player as int], piece_id@),
    ));
    next.placed_pieces[player].push(piece_id.clone());
    assert(names(next.placed_pieces[player as int]) =~= s.placed_pieces[player as int].push(piece_id@));
    assert(next@.placed_pieces =~= s.placed_pieces.update(
        player as int,
        s.placed_pieces[player as int].push(piece_id@),
    ));
    next.last_placed_piece[player] = Some(piece_id.clone());
    assert(next@.last_placed_piece =~= s.last_placed_piece.update(player as int, Some(piece_id@)));
    next.forced_passed[player] = false;
    assert(next@.forced_passed =~= s.forced_passed.update(player as int, false));
    next.consecutive_passes = 0;
    if next.placed_pieces[player].len() == 1 {
        update_start_assignment_after_first_move(next, player, &cells);
    }
}

/// `mv` is one of the legal moves of `state`.
fn is_legal_move(state: &State, mv: &Move) -> (r: bool)
    requires
        state.status == GameStatus::Playing ==> state.current_player < 2,
    ensures
        r == legal_move(state@, mv@),
{
    let legal = generate_legal_moves(state);
    let mut found = false;
    let mut i: usize = 0;
    while i < legal.len() && !found
        invariant
            i <= legal.len(),
            found ==> moves_view(legal).contains(mv@),
            !found ==> forall|k: int| 0 <= k < i ==> moves_view(legal)[k] != mv@,
        decreases legal.len() - i,
    {
        if same_move(&legal[i], mv) {
            found = true;
            assert(moves_view(legal)[i as int] == mv@);
        }
        i = i + 1;
    }
    proof {
        if found {
            let k = choose|k: int| 0 <= k < moves_view(legal).len() && moves_view(legal)[k] == mv@;
            assert(legal_move(state@, moves_view(legal)[k]));
        } else {
            assert(!moves_view(legal).contains(mv@));
        }
    }
    found
}

/// Applies `mv` to `state`, or refuses it with "Illegal move" when it is not
/// one of the legal moves of `state`.
pub fn apply_move(state: &State, mv: &Move) -> (r: Result<State, String>)
    requires
        state.status == GameStatus::Playing ==> state.current_player < 2,
        state.turn < usize::MAX,
        state.consecutive_passes < usize::MAX,
    ensures
        r is Ok <==> legal_move(state@, mv@),
        r matches Ok(next) ==> next@ == next_state(state@, mv@) && next.wf(),
        r matches Err(e) ==> e@ == "Illegal move"@,
{
    let ghost s = state@;
    if !is_legal_move(state, mv) {
        return Err("Illegal move".to_owned());
    }
    proof {
        if legal_placement(s, mv@) {
            lemma_legal_placement_shape(s, mv@);
        }
    }
    let mut next = state.clone();
    match mv {
        Move::Pass { player } => {
            next.forced_passed[*player] = true;
            next.consecutive_passes = next.consecutive_passes + 1;
            assert(next@.forced_passed =~= s.forced_passed.update(*player as int, true));
            assert(next@ == apply_pass(s, *player as nat));
            advance_turn_or_finish(&mut next);
        },
        Move::Place { .. } => {
            place_piece(&mut next, mv);
            advance_turn_or_finish(&mut next);
        },
    }
    Ok(next)
}

} // verus!
