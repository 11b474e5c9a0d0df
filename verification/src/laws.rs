//! Properties of whole games: every legal move makes progress, so every game
//! ends; pieces never overlap; no piece is lost or duplicated; every
//! position reached keeps each player's accounts of pieces, cells and score.
use vstd::prelude::*;
use crate::table::{BOARD_CELLS, EMPTY};
use crate::types::{other, GameStatus, MoveModel, StateModel};
use crate::rules::{
    cell_index, has_legal_placement_for, in_bounds, lemma_legal_placement_shape, legal_move,
    legal_placement, move_cells, with_player, all_empty, cell_at, lemma_shifted_on_board,
    lemma_shifted_kept, shifted_in_bounds,
};
use crate::game::{
    advance, apply_pass, apply_place, assign_start, initial_state, is_terminal_state,
    next_state, other_player, paint, remove_first,
};
use crate::types::{StartPoint, StartPolicy};
use crate::table::{
    lemma_orientation_shapes, lemma_piece_names_distinct, lemma_table_facts, orientation_name,
    orientation_piece, orientation_size, ORIENTATION_COUNT, cells_distinct, orientation_cell,
    orientation_cells, piece_index_size, piece_name, ORIENTATION_PIECE, PIECE_COUNT,
};
use crate::score::{score_of, sum_sizes};
use crate::game::all_piece_names;
use crate::pieces::{lemma_orientations_named, orientations_named, piece_size_of};

verus! {

/// Twice the pieces still in hand, plus one while the last move was not a pass.
pub open spec fn progress_measure(s: StateModel) -> nat {
    2 * (s.remaining_pieces[0].len() + s.remaining_pieces[1].len()) + (if s.consecutive_passes == 0 {
        1nat
    } else {
        0nat
    })
}

/// What holds in every position of a game: the state is well formed, and
/// right after a pass the player to move can place a piece.
pub open spec fn play_invariant(s: StateModel) -> bool {
    &&& s.wf()
    &&& s.consecutive_passes <= 1
    &&& (s.status == GameStatus::Playing && s.consecutive_passes > 0 ==> has_legal_placement_for(
        s,
        s.current_player,
    ))
}

/// Only a game in progress has legal moves.
pub proof fn lemma_finished_has_no_moves(s: StateModel, m: MoveModel)
    requires
        s.status != GameStatus::Playing,
    ensures
        !legal_move(s, m),
{
    if legal_placement(s, m) {
        lemma_legal_placement_shape(s, m);
    }
}

/// `other` is an involution without fixed points on the two players.
pub proof fn lemma_other_involution(player: usize)
    requires
        player < 2,
    ensures
        other_player(other_player(player as nat)) == player,
        other_player(player as nat) != player,
        other_player(player as nat) < 2,
{
}

/// Legality of a placement reads only the board, the hands, the pieces
/// placed, the start rules, the status and who is to move.
pub proof fn lemma_legal_placement_reads(s1: StateModel, s2: StateModel, m: MoveModel)
    requires
        s1.status == s2.status,
        s1.current_player == s2.current_player,
        s1.board == s2.board,
        s1.remaining_pieces == s2.remaining_pieces,
        s1.placed_pieces == s2.placed_pieces,
        s1.start_policy == s2.start_policy,
        s1.start_assignment == s2.start_assignment,
    ensures
        legal_placement(s1, m) == legal_placement(s2, m),
{
    reveal(legal_placement);
}

proof fn lemma_has_placement_reads(s1: StateModel, s2: StateModel, player: nat)
    requires
        s1.status == s2.status,
        s1.board == s2.board,
        s1.remaining_pieces == s2.remaining_pieces,
        s1.placed_pieces == s2.placed_pieces,
        s1.start_policy == s2.start_policy,
        s1.start_assignment == s2.start_assignment,
    ensures
        has_legal_placement_for(s1, player) == has_legal_placement_for(s2, player),
{
    if has_legal_placement_for(s1, player) {
        let m = choose|m: MoveModel| #[trigger] legal_placement(with_player(s1, player), m);
        lemma_legal_placement_reads(with_player(s1, player), with_player(s2, player), m);
    }
    if has_legal_placement_for(s2, player) {
        let m = choose|m: MoveModel| #[trigger] legal_placement(with_player(s2, player), m);
        lemma_legal_placement_reads(with_player(s1, player), with_player(s2, player), m);
    }
}

/// Removing a name shortens a list by one when the name is there, and never lengthens it.
pub proof fn lemma_remove_first_len(list: Seq<Seq<char>>, name: Seq<char>)
    ensures
        remove_first(list, name).len() == (if list.contains(name) {
            list.len() - 1
        } else {
            list.len() as int
        }),
    decreases list.len(),
{
    if list.len() > 0 {
        let tail = list.subrange(1, list.len() as int);
        lemma_remove_first_len(tail, name);
        if list.contains(name) && list[0] != name {
            let k = choose|k: int| 0 <= k < list.len() && list[k] == name;
            assert(tail[k - 1] == name);
        }
        if tail.contains(name) {
            let k = choose|k: int| 0 <= k < tail.len() && tail[k] == name;
            assert(list[k + 1] == name);
        }
    }
}

/// A board after painting: the painted cells hold `player`, the others are unchanged.
pub proof fn lemma_paint(board: Seq<i8>, cells: Seq<(int, int)>, player: i8, k: int)
    requires
        board.len() == BOARD_CELLS,
        0 <= k < board.len(),
        forall|i: int| 0 <= i < cells.len() ==> in_bounds(#[trigger] cells[i].0, cells[i].1),
    ensures
        paint(board, cells, player).len() == board.len(),
        paint(board, cells, player)[k] == (if exists|i: int|
            0 <= i < cells.len() && cell_index(#[trigger] cells[i].0, cells[i].1) == k {
            player
        } else {
            board[k]
        }),
    decreases cells.len(),
{
    if cells.len() > 0 {
        let init = cells.drop_last();
        assert forall|i: int| 0 <= i < init.len() implies in_bounds(#[trigger] init[i].0, init[i].1) by {
            assert(init[i] == cells[i]);
        }
        lemma_paint(board, init, player, k);
        let last = cells.last();
        assert(in_bounds(cells[cells.len() - 1].0, cells[cells.len() - 1].1));
        if exists|i: int| 0 <= i < init.len() && cell_index(#[trigger] init[i].0, init[i].1) == k {
            let i = choose|i: int| 0 <= i < init.len() && cell_index(#[trigger] init[i].0, init[i].1) == k;
            assert(cells[i] == init[i]);
        }
        if exists|i: int| 0 <= i < cells.len() && cell_index(#[trigger] cells[i].0, cells[i].1) == k {
            let i = choose|i: int| 0 <= i < cells.len() && cell_index(#[trigger] cells[i].0, cells[i].1) == k;
            if i < cells.len() - 1 {
                assert(init[i] == cells[i]);
            }
        }
    }
}

/// Every legal move from a position of a game leads to a position of the
/// game, and either ends the game or hands the turn over; in both cases it
/// lowers `progress_measure`, so every game ends.
pub proof fn lemma_legal_move_progress(s: StateModel, m: MoveModel)
    requires
        play_invariant(s),
        legal_move(s, m),
    ensures
        play_invariant(next_state(s, m)),
        progress_measure(next_state(s, m)) < progress_measure(s),
        next_state(s, m).status == GameStatus::Playing ==> next_state(s, m).turn == s.turn + 1,
        next_state(s, m).status != GameStatus::Playing ==> next_state(s, m).turn == s.turn,
        next_state(s, m).remaining_pieces[0].len() <= s.remaining_pieces[0].len(),
        next_state(s, m).remaining_pieces[1].len() <= s.remaining_pieces[1].len(),
{
    let n = next_state(s, m);
    if legal_placement(s, m) {
        lemma_legal_placement_shape(s, m);
        let p = m->Place_player;
        lemma_remove_first_len(s.remaining_pieces[p as int], m->Place_piece_id);
        lemma_moves_only_fill_empty_cells(s, m, 0);
        let placed = apply_place(s, m);
        assert(placed.consecutive_passes == 0);
        assert(placed.remaining_pieces[p as int].len() == s.remaining_pieces[p as int].len() - 1);
        assert(placed.remaining_pieces[other_player(p) as int] == s.remaining_pieces[other_player(
            p,
        ) as int]);
    } else {
        assert(s.status == GameStatus::Playing);
        assert(m == MoveModel::Pass { player: s.current_player });
        assert(!has_legal_placement_for(s, s.current_player));
        assert(s.consecutive_passes == 0);
        let passed = apply_pass(s, s.current_player);
        if !is_terminal_state(passed) {
            lemma_has_placement_reads(s, passed, s.current_player);
            lemma_has_placement_reads(s, passed, other_player(s.current_player));
            lemma_has_placement_reads(passed, n, other_player(s.current_player));
            assert(s.current_player == 0 || s.current_player == 1);
            assert(has_legal_placement_for(passed, other_player(s.current_player)));
        }
    }
}

/// A legal move only fills empty cells, with the mover's color: cells that
/// were taken keep their owner.
pub proof fn lemma_moves_only_fill_empty_cells(s: StateModel, m: MoveModel, k: int)
    requires
        s.wf(),
        legal_move(s, m),
        0 <= k < BOARD_CELLS,
    ensures
        next_state(s, m).board.len() == BOARD_CELLS,
        s.board[k] != EMPTY ==> next_state(s, m).board[k] == s.board[k],
        next_state(s, m).board[k] != s.board[k] ==> m is Place && next_state(s, m).board[k]
            == m->Place_player as i8,
{
    if legal_placement(s, m) {
        lemma_legal_placement_shape(s, m);
        reveal(legal_placement);
        let cells = move_cells(m);
        assert forall|i: int| 0 <= i < cells.len() implies in_bounds(#[trigger] cells[i].0, cells[i].1) by {
            crate::rules::lemma_shifted_on_board(
                crate::table::orientation_cells(m->Place_orientation_global_id as int),
                m->Place_x as int,
                m->Place_y as int,
                i,
            );
        }
        lemma_paint(s.board, cells, m->Place_player as i8, k);
        if exists|i: int| 0 <= i < cells.len() && cell_index(#[trigger] cells[i].0, cells[i].1) == k {
            let i = choose|i: int| 0 <= i < cells.len() && cell_index(#[trigger] cells[i].0, cells[i].1) == k;
            assert(crate::rules::cell_at(s.board, cells[i].0, cells[i].1) == EMPTY);
        }
    }
}

/// A legal move keeps the number of pieces each player holds or has placed:
/// a placement moves one piece from the mover's hand to their placed pieces.
pub proof fn lemma_pieces_conserved(s: StateModel, m: MoveModel, player: int)
    requires
        s.wf(),
        legal_move(s, m),
        0 <= player < 2,
    ensures
        next_state(s, m).remaining_pieces[player].len() + next_state(s, m).placed_pieces[player].len()
            == s.remaining_pieces[player].len() + s.placed_pieces[player].len(),
{
    if legal_placement(s, m) {
        lemma_legal_placement_shape(s, m);
        lemma_remove_first_len(s.remaining_pieces[m->Place_player as int], m->Place_piece_id);
    }
}

/// Removing a name keeps only entries of the list and keeps them distinct.
pub proof fn lemma_remove_first_distinct(list: Seq<Seq<char>>, name: Seq<char>)
    ensures
        forall|x: Seq<char>| #[trigger] remove_first(list, name).contains(x) ==> list.contains(x),
        list.no_duplicates() ==> remove_first(list, name).no_duplicates(),
    decreases list.len(),
{
    if list.len() > 0 {
        let tail = list.subrange(1, list.len() as int);
        lemma_remove_first_distinct(tail, name);
        let r = remove_first(list, name);
        assert forall|x: Seq<char>| r.contains(x) implies list.contains(x) by {
            let k = choose|k: int| 0 <= k < r.len() && r[k] == x;
            if list[0] == name {
                assert(list[k + 1] == x);
            } else if k == 0 {
                assert(list[0] == x);
            } else {
                assert(remove_first(tail, name)[k - 1] == x);
                assert(remove_first(tail, name).contains(x));
                let t = choose|t: int| 0 <= t < tail.len() && tail[t] == x;
                assert(list[t + 1] == x);
            }
        }
        if list.no_duplicates() {
            assert(tail.no_duplicates());
            if list[0] != name {
                let rt = remove_first(tail, name);
                assert(!rt.contains(list[0])) by {
                    if rt.contains(list[0]) {
                        let t = choose|t: int| 0 <= t < tail.len() && tail[t] == list[0];
                        assert(list[t + 1] == list[0]);
                    }
                }
                assert forall|a: int, b: int| 0 <= a < r.len() && 0 <= b < r.len() && a != b implies r[a]
                    != r[b] by {
                    if a == 0 && b > 0 {
                        assert(r[b] == rt[b - 1]);
                    } else if b == 0 && a > 0 {
                        assert(r[a] == rt[a - 1]);
                    } else if a > 0 && b > 0 {
                        assert(r[a] == rt[a - 1]);
                        assert(r[b] == rt[b - 1]);
                    }
                }
            }
        }
    }
}

/// Every hand of the initial state holds each piece once.
pub proof fn lemma_initial_hands_distinct(start_policy: StartPolicy, player: int)
    requires
        0 <= player < 2,
    ensures
        initial_state(start_policy).remaining_pieces[player].no_duplicates(),
{
    crate::table::lemma_piece_names_distinct();
}

/// A legal move keeps every hand free of repeated pieces, so the legal
/// moves generated in any position of a game never repeat.
pub proof fn lemma_hands_stay_distinct(s: StateModel, m: MoveModel, player: int)
    requires
        s.wf(),
        legal_move(s, m),
        0 <= player < 2,
        s.remaining_pieces[player].no_duplicates(),
    ensures
        next_state(s, m).remaining_pieces[player].no_duplicates(),
{
    if legal_placement(s, m) {
        lemma_legal_placement_shape(s, m);
        lemma_remove_first_distinct(s.remaining_pieces[player], m->Place_piece_id);
    }
}

/// The initial state is a position of a game.
pub proof fn lemma_initial_state_invariant(start_policy: StartPolicy)
    ensures
        play_invariant(initial_state(start_policy)),
        progress_measure(initial_state(start_policy)) == 85,
{
}

/// The number of cells of `board` that hold `v`.
pub open spec fn count_cells(board: Seq<i8>, v: i8) -> nat
    decreases board.len(),
{
    if board.len() == 0 {
        0
    } else {
        count_cells(board.drop_last(), v) + (if board.last() == v {
            1nat
        } else {
            0nat
        })
    }
}

proof fn lemma_count_none(board: Seq<i8>, v: i8)
    requires
        forall|k: int| 0 <= k < board.len() ==> board[k] != v,
    ensures
        count_cells(board, v) == 0,
    decreases board.len(),
{
    if board.len() > 0 {
        lemma_count_none(board.drop_last(), v);
    }
}

/// Giving an empty cell to `p` adds one cell of `p` and changes no other owner's count.
proof fn lemma_count_update(board: Seq<i8>, k: int, p: i8, v: i8)
    requires
        0 <= k < board.len(),
        board[k] == EMPTY,
        p != EMPTY,
        v != EMPTY,
    ensures
        count_cells(board.update(k, p), v) == count_cells(board, v) + (if v == p {
            1nat
        } else {
            0nat
        }),
    decreases board.len(),
{
    let b = board.update(k, p);
    if k == board.len() - 1 {
        assert(b.drop_last() =~= board.drop_last());
    } else {
        assert(b.drop_last() =~= board.drop_last().update(k, p));
        lemma_count_update(board.drop_last(), k, p, v);
    }
}

/// Painting `p` on cells that are on the board, empty and pairwise
/// different adds that many cells of `p` and changes no other owner's count.
proof fn lemma_paint_count(board: Seq<i8>, cells: Seq<(int, int)>, p: i8, v: i8)
    requires
        board.len() == BOARD_CELLS,
        forall|i: int| 0 <= i < cells.len() ==> in_bounds(#[trigger] cells[i].0, cells[i].1),
        all_empty(board, cells),
        cells.no_duplicates(),
        p != EMPTY,
        v != EMPTY,
    ensures
        count_cells(paint(board, cells, p), v) == count_cells(board, v) + (if v == p {
            cells.len()
        } else {
            0nat
        }),
    decreases cells.len(),
{
    if cells.len() > 0 {
        let init = cells.drop_last();
        assert forall|i: int| 0 <= i < init.len() implies in_bounds(#[trigger] init[i].0, init[i].1) by {
            assert(init[i] == cells[i]);
        }
        assert forall|i: int| 0 <= i < init.len() implies #[trigger] cell_at(board, init[i].0, init[i].1)
            == EMPTY by {
            assert(init[i] == cells[i]);
        }
        assert(init.no_duplicates());
        lemma_paint_count(board, init, p, v);
        let last = cells.last();
        let n = cells.len() - 1;
        assert(in_bounds(cells[n].0, cells[n].1));
        assert(cell_at(board, cells[n].0, cells[n].1) == EMPTY);
        let k = cell_index(last.0, last.1);
        lemma_paint(board, init, p, k);
        assert(paint(board, init, p)[k] == EMPTY) by {
            if exists|i: int| 0 <= i < init.len() && cell_index(#[trigger] init[i].0, init[i].1) == k {
                let i = choose|i: int| 0 <= i < init.len() && cell_index(#[trigger] init[i].0, init[i].1) == k;
                assert(init[i] == cells[i]);
                assert(cells[i] == cells[n]);
            }
        }
        lemma_count_update(paint(board, init, p), k, p, v);
    }
}

/// Removing a name that is in the list removes one copy of it.
proof fn lemma_remove_first_multiset(list: Seq<Seq<char>>, name: Seq<char>)
    requires
        list.contains(name),
    ensures
        remove_first(list, name).to_multiset() == list.to_multiset().remove(name),
    decreases list.len(),
{
    let k = lemma_remove_first_is_remove(list, name);
    vstd::seq_lib::to_multiset_remove(list, k);
}

/// Removing a name that is in the list removes it at some position where it stands.
proof fn lemma_remove_first_is_remove(list: Seq<Seq<char>>, name: Seq<char>) -> (k: int)
    requires
        list.contains(name),
    ensures
        0 <= k < list.len(),
        list[k] == name,
        remove_first(list, name) == list.remove(k),
    decreases list.len(),
{
    if list[0] == name {
        assert(list.subrange(1, list.len() as int) =~= list.remove(0));
        0
    } else {
        let tail = list.subrange(1, list.len() as int);
        let j = choose|j: int| 0 <= j < list.len() && list[j] == name;
        assert(tail[j - 1] == name);
        let t = lemma_remove_first_is_remove(tail, name);
        assert(seq![list[0]] + tail.remove(t) =~= list.remove(t + 1));
        t + 1
    }
}

/// Every orientation has as many unit squares as its piece.
pub proof fn lemma_orientation_piece_size(g: int)
    requires
        0 <= g < ORIENTATION_COUNT,
    ensures
        piece_size_of(orientation_name(g)) == orientation_size(g),
{
    lemma_table_facts();
    lemma_orientation_shapes();
    lemma_piece_names_distinct();
    let name = orientation_name(g);
    lemma_orientations_named(name, ORIENTATION_COUNT as int);
    let ids = orientations_named(name, ORIENTATION_COUNT as int);
    assert(ids.contains(g));
    let h = ids[0];
    assert(orientation_name(h) == name);
    assert(orientation_piece(h) == orientation_piece(g));
}

/// Every cell of `board` is empty or belongs to one of the two players.
pub open spec fn cells_owned(board: Seq<i8>) -> bool {
    forall|k: int| 0 <= k < board.len() ==> #[trigger] board[k] == EMPTY || board[k] == 0 || board[k] == 1
}

/// The accounts of `player` in `s`: their hand and their placed pieces
/// together are exactly the pieces of the game, and so hold all its unit
/// squares; they own as many cells as the unit squares of the pieces they
/// placed; and their start point is
/// assigned under `FixedStart`, and under either rule once they placed a piece.
pub open spec fn player_accounts(s: StateModel, player: int) -> bool {
    &&& (s.remaining_pieces[player] + s.placed_pieces[player]).to_multiset()
        == all_piece_names().to_multiset()
    &&& count_cells(s.board, player as i8) == sum_sizes(s.placed_pieces[player])
    &&& sum_sizes(s.remaining_pieces[player]) + sum_sizes(s.placed_pieces[player]) == sum_sizes(
        all_piece_names(),
    )
    &&& (s.placed_pieces[player].len() > 0 || s.start_policy == StartPolicy::FixedStart)
        ==> s.start_assignment[player] is Some
}

/// What holds in every position reached in a game from the initial state.
pub open spec fn position_invariant(s: StateModel) -> bool {
    &&& s.wf()
    &&& cells_owned(s.board)
    &&& player_accounts(s, 0)
    &&& player_accounts(s, 1)
}

/// The cells of a legal placement are on the board, empty, pairwise
/// different, and as many as the unit squares of the piece.
proof fn lemma_placement_cells(s: StateModel, m: MoveModel)
    requires
        s.wf(),
        legal_placement(s, m),
    ensures
        forall|i: int| 0 <= i < move_cells(m).len() ==> in_bounds(#[trigger] move_cells(m)[i].0, move_cells(m)[i].1),
        all_empty(s.board, move_cells(m)),
        move_cells(m).no_duplicates(),
        move_cells(m).len() == piece_size_of(m->Place_piece_id),
        m->Place_player == s.current_player,
        s.remaining_pieces[m->Place_player as int].contains(m->Place_piece_id),
{
    reveal(legal_placement);
    let g = m->Place_orientation_global_id as int;
    let orig = orientation_cells(g);
    let x = m->Place_x as int;
    let y = m->Place_y as int;
    let cells = move_cells(m);
    lemma_table_facts();
    lemma_orientation_shapes();
    lemma_orientation_piece_size(g);
    assert(cells_distinct(g));
    assert forall|i: int| 0 <= i < cells.len() implies in_bounds(#[trigger] cells[i].0, cells[i].1) by {
        lemma_shifted_on_board(orig, x, y, i);
    }
    assert forall|i: int, j: int| 0 <= i < cells.len() && 0 <= j < cells.len() && i != j implies cells[i]
        != cells[j] by {
        lemma_shifted_kept(orig, x, y, i);
        lemma_shifted_kept(orig, x, y, j);
        if i < j {
            assert(orientation_cell(g, i) != orientation_cell(g, j));
        } else {
            assert(orientation_cell(g, j) != orientation_cell(g, i));
        }
    }
}

/// Advancing the turn keeps the invariant.
proof fn lemma_advance_invariant(t: StateModel)
    requires
        position_invariant(t),
    ensures
        position_invariant(advance(t)),
{
}

/// A placement keeps the invariant, before the turn advances.
proof fn lemma_place_invariant(s: StateModel, m: MoveModel)
    requires
        position_invariant(s),
        legal_placement(s, m),
    ensures
        position_invariant(apply_place(s, m)),
{
    lemma_placement_cells(s, m);
    lemma_legal_placement_shape(s, m);
    let p = m->Place_player as int;
    let q = other_player(p as nat) as int;
    let piece = m->Place_piece_id;
    let cells = move_cells(m);
    let t = apply_place(s, m);
    let board = paint(s.board, cells, p as i8);
    assert(t.board == board);
    lemma_paint(s.board, cells, p as i8, 0);
    assert forall|k: int| 0 <= k < board.len() implies #[trigger] board[k] == EMPTY || board[k] == 0
        || board[k] == 1 by {
        lemma_paint(s.board, cells, p as i8, k);
    }
    lemma_paint_count(s.board, cells, p as i8, p as i8);
    lemma_paint_count(s.board, cells, p as i8, q as i8);
    let rem = s.remaining_pieces[p];
    let placed = s.placed_pieces[p];
    assert(t.remaining_pieces[p] == remove_first(rem, piece));
    assert(t.placed_pieces[p] == placed.push(piece));
    assert(t.remaining_pieces[q] == s.remaining_pieces[q]);
    assert(t.placed_pieces[q] == s.placed_pieces[q]);
    assert(placed.push(piece).drop_last() =~= placed);
    assert(sum_sizes(placed.push(piece)) == sum_sizes(placed) + piece_size_of(piece));
    lemma_remove_first_multiset(rem, piece);
    let k = lemma_remove_first_is_remove(rem, piece);
    lemma_sum_remove(rem, k);
    vstd::seq_lib::lemma_multiset_commutative(remove_first(rem, piece), placed.push(piece));
    vstd::seq_lib::lemma_multiset_commutative(rem, placed);
    vstd::seq_lib::to_multiset_build(placed, piece);
    vstd::seq_lib::to_multiset_contains(rem, piece);
    assert(rem.to_multiset().remove(piece).add(placed.to_multiset().insert(piece)) =~= rem.to_multiset().add(
        placed.to_multiset(),
    ));
    assert(player_accounts(t, p));
    assert(player_accounts(t, q));
    if p == 0 {
        assert(player_accounts(t, 0) && player_accounts(t, 1));
    } else {
        assert(player_accounts(t, 0) && player_accounts(t, 1));
    }
}

/// The initial state satisfies the invariant.
proof fn lemma_initial_position_invariant(start_policy: StartPolicy)
    ensures
        position_invariant(initial_state(start_policy)),
{
    let s = initial_state(start_policy);
    lemma_count_none(s.board, 0);
    lemma_count_none(s.board, 1);
    assert(all_piece_names() + Seq::<Seq<char>>::empty() =~= all_piece_names());
    assert(player_accounts(s, 0));
    assert(player_accounts(s, 1));
}

/// A legal move from a position of a game keeps the invariant.
proof fn lemma_step_position_invariant(s: StateModel, m: MoveModel)
    requires
        play_invariant(s),
        position_invariant(s),
        legal_move(s, m),
    ensures
        position_invariant(next_state(s, m)),
{
    if legal_placement(s, m) {
        lemma_legal_placement_shape(s, m);
        lemma_place_invariant(s, m);
        lemma_advance_invariant(apply_place(s, m));
    } else {
        let t = apply_pass(s, m->Pass_player);
        assert(player_accounts(t, 0));
        assert(player_accounts(t, 1));
        lemma_advance_invariant(t);
    }
}

/// Every position reached from the initial state by legal moves (each
/// accepted by `apply_move`, which returns `next_state`) keeps the accounts
/// of the game: for each player, their hand and their placed pieces together
/// are a permutation of all the pieces, they own exactly as many cells as
/// the unit squares of the pieces they placed, every cell is empty or owned
/// by a player, and their start point is assigned once they placed a piece
/// (and from the start under `FixedStart`).
pub proof fn lemma_reachable_positions(
    start_policy: StartPolicy,
    states: Seq<StateModel>,
    moves: Seq<MoveModel>,
    i: int,
)
    requires
        states.len() == moves.len() + 1,
        states[0] == initial_state(start_policy),
        forall|j: int|
            0 <= j < moves.len() ==> legal_move(states[j], #[trigger] moves[j]) && states[j + 1]
                == next_state(states[j], moves[j]),
        0 <= i < states.len(),
    ensures
        position_invariant(states[i]),
        play_invariant(states[i]),
    decreases i,
{
    if i == 0 {
        lemma_initial_position_invariant(start_policy);
        lemma_initial_state_invariant(start_policy);
    } else {
        lemma_reachable_positions(start_policy, states, moves, i - 1);
        assert(legal_move(states[i - 1], moves[i - 1]));
        lemma_step_position_invariant(states[i - 1], moves[i - 1]);
        lemma_legal_move_progress(states[i - 1], moves[i - 1]);
    }
}

/// Taking entry `k` out of a list takes its unit squares out of the sum.
proof fn lemma_sum_remove(list: Seq<Seq<char>>, k: int)
    requires
        0 <= k < list.len(),
    ensures
        sum_sizes(list.remove(k)) + piece_size_of(list[k]) == sum_sizes(list),
    decreases list.len(),
{
    if k == list.len() - 1 {
        assert(list.remove(k) =~= list.drop_last());
    } else {
        assert(list.remove(k).drop_last() =~= list.drop_last().remove(k));
        assert(list.remove(k).last() == list.last());
        lemma_sum_remove(list.drop_last(), k);
    }
}

/// The unit squares of the first `n` pieces, by piece index.
pub open spec fn index_sizes_sum(n: nat) -> nat
    decreases n,
{
    if n == 0 {
        0
    } else {
        index_sizes_sum((n - 1) as nat) + piece_index_size(n - 1) as nat
    }
}

/// Piece `i` of `PIECE_IDS` has one unit square for the monomino, two for the
/// domino, three for the trominoes, four for the tetrominoes and five for the rest.
pub proof fn lemma_piece_name_size(i: int)
    requires
        0 <= i < PIECE_COUNT,
    ensures
        piece_size_of(piece_name(i)) == piece_index_size(i),
{
    let firsts = seq![0int, 1int, 3int, 5int, 9int, 11int, 12int, 16int, 24int, 28int, 36int, 38int, 46int, 54int, 58int, 62int, 66int, 70int, 71int, 79int, 83int];
    let g = firsts[i];
    assert(0 <= g < ORIENTATION_COUNT);
    assert(ORIENTATION_PIECE@[g] == ORIENTATION_PIECE[g]);
    assert(orientation_piece(g) == i);
    lemma_table_facts();
    lemma_orientation_shapes();
    lemma_orientation_piece_size(g);
}

proof fn lemma_names_sum(n: nat)
    requires
        n <= PIECE_COUNT,
    ensures
        sum_sizes(Seq::new(n, |i: int| piece_name(i))) == index_sizes_sum(n),
    decreases n,
{
    if n > 0 {
        let f = |i: int| piece_name(i);
        assert(Seq::new(n, f).drop_last() =~= Seq::new((n - 1) as nat, f));
        lemma_names_sum((n - 1) as nat);
        lemma_piece_name_size(n - 1);
    }
}

/// The pieces of a game hold 89 unit squares in all.
pub proof fn lemma_all_pieces_size()
    ensures
        sum_sizes(all_piece_names()) == 89,
{
    lemma_names_sum(PIECE_COUNT as nat);
    assert(all_piece_names() =~= Seq::new(PIECE_COUNT as nat, |i: int| piece_name(i)));
    reveal_with_fuel(index_sizes_sum, 22);
}

/// Every score in a position reached from the initial state by legal moves
/// lies between -89 (no piece placed) and 20 (every piece placed, the
/// monomino last).
pub proof fn lemma_reachable_scores(
    start_policy: StartPolicy,
    states: Seq<StateModel>,
    moves: Seq<MoveModel>,
    i: int,
    player: int,
)
    requires
        states.len() == moves.len() + 1,
        states[0] == initial_state(start_policy),
        forall|j: int|
            0 <= j < moves.len() ==> legal_move(states[j], #[trigger] moves[j]) && states[j + 1]
                == next_state(states[j], moves[j]),
        0 <= i < states.len(),
        0 <= player < 2,
    ensures
        -89 <= score_of(states[i], player as nat) <= 20,
{
    lemma_reachable_positions(start_policy, states, moves, i);
    lemma_all_pieces_size();
    let s = states[i];
    assert(player_accounts(s, player));
}

/// The game goes on while some player can still place a piece and some
/// piece is still in hand; it is over once both hands are empty or neither
/// player can place a piece.
pub proof fn lemma_terminal_rule(s: StateModel)
    ensures
        (has_legal_placement_for(s, 0) || has_legal_placement_for(s, 1)) && (
        s.remaining_pieces[0].len() > 0 || s.remaining_pieces[1].len() > 0) ==> !is_terminal_state(s),
        !has_legal_placement_for(s, 0) && !has_legal_placement_for(s, 1) ==> is_terminal_state(s),
        s.remaining_pieces[0].len() == 0 && s.remaining_pieces[1].len() == 0 ==> is_terminal_state(s),
{
}

/// While a player still holds pieces their score is minus the unit squares
/// they hold, with no bonus; with an empty hand it is 15, or 20 when the
/// last piece they placed was the monomino.
pub proof fn lemma_score_rule(s: StateModel, player: int)
    requires
        0 <= player < 2,
    ensures
        s.remaining_pieces[player].len() > 0 ==> score_of(s, player as nat) == -(sum_sizes(
            s.remaining_pieces[player],
        ) as int),
        s.remaining_pieces[player].len() == 0 && s.last_placed_piece[player] == Some("I1"@)
            ==> score_of(s, player as nat) == 20,
        s.remaining_pieces[player].len() == 0 && s.last_placed_piece[player] != Some("I1"@)
            ==> score_of(s, player as nat) == 15,
{
}

/// The unit squares of a list of pieces: none for an empty list, and one
/// more piece adds its own squares.
pub proof fn lemma_sum_sizes_rule(list: Seq<Seq<char>>, name: Seq<char>)
    ensures
        sum_sizes(Seq::<Seq<char>>::empty()) == 0,
        sum_sizes(list.push(name)) == sum_sizes(list) + piece_size_of(name),
{
    assert(list.push(name).drop_last() =~= list);
}

/// What a legal placement by `p` does: the piece leaves `p`'s hand (one
/// copy) and is appended to `p`'s placed pieces and recorded as their last
/// piece; exactly the cells of the piece, shifted by `(x, y)`, become `p`'s;
/// `p` is no longer marked as having passed and the pass count restarts;
/// nothing of the other player changes. On `p`'s first piece under
/// `ChooseStart` with no start point assigned, `p` gets the corner the
/// piece covers (`A` if it covers `(0, 0)`, else `B`) and the opponent the
/// other one; otherwise the start points stay. If the game goes on, the
/// other player moves next and the turn counter grows by one; if it ends,
/// both stay.
pub proof fn lemma_place_effects(s: StateModel, m: MoveModel)
    requires
        s.wf(),
        legal_placement(s, m),
    ensures
        ({
            let p = m->Place_player as int;
            let q = 1 - p;
            let piece = m->Place_piece_id;
            let g = m->Place_orientation_global_id as int;
            let x = m->Place_x as int;
            let y = m->Place_y as int;
            let n = next_state(s, m);
            &&& n.last_placed_piece[p] == Some(piece)
            &&& n.last_placed_piece[q] == s.last_placed_piece[q]
            &&& n.placed_pieces[p] == s.placed_pieces[p].push(piece)
            &&& n.placed_pieces[q] == s.placed_pieces[q]
            &&& n.remaining_pieces[p].to_multiset() == s.remaining_pieces[p].to_multiset().remove(piece)
            &&& s.remaining_pieces[p].contains(piece)
            &&& n.remaining_pieces[p].len() + 1 == s.remaining_pieces[p].len()
            &&& n.remaining_pieces[q] == s.remaining_pieces[q]
            &&& n.forced_passed[p] == false
            &&& n.forced_passed[q] == s.forced_passed[q]
            &&& n.consecutive_passes == 0
            &&& n.start_policy == s.start_policy
            &&& n.board.len() == s.board.len()
            &&& forall|k: int|
                0 <= k < s.board.len() ==> #[trigger] n.board[k] == (if exists|i: int|
                    0 <= i < orientation_size(g) && (orientation_cell(g, i).1 + y) * 14 + (
                    #[trigger] orientation_cell(g, i)).0 + x == k {
                    p as i8
                } else {
                    s.board[k]
                })
            &&& (s.placed_pieces[p].len() == 0 && s.start_policy == StartPolicy::ChooseStart
                && s.start_assignment[p] is None) ==> {
                let a = exists|i: int|
                    0 <= i < orientation_size(g) && #[trigger] orientation_cell(g, i).0 + x == 0
                        && orientation_cell(g, i).1 + y == 0;
                &&& n.start_assignment[p] == Some(if a { StartPoint::A } else { StartPoint::B })
                &&& n.start_assignment[q] == Some(if a { StartPoint::B } else { StartPoint::A })
            }
            &&& !(s.placed_pieces[p].len() == 0 && s.start_policy == StartPolicy::ChooseStart
                && s.start_assignment[p] is None) ==> n.start_assignment == s.start_assignment
            &&& n.status == GameStatus::Playing ==> n.current_player == q && n.turn == s.turn + 1
            &&& n.status != GameStatus::Playing ==> n.status == GameStatus::Finished
                && n.current_player == p && n.turn == s.turn
        }),
{
    lemma_placement_cells(s, m);
    lemma_legal_placement_shape(s, m);
    let p = m->Place_player as int;
    let piece = m->Place_piece_id;
    lemma_remove_first_multiset(s.remaining_pieces[p], piece);
    lemma_remove_first_len(s.remaining_pieces[p], piece);
    lemma_place_board(s, m);
    lemma_place_start(s, m);
}

/// The cells of a legal placement, as the offsets of its orientation moved by `(x, y)`.
proof fn lemma_placement_offsets(s: StateModel, m: MoveModel)
    requires
        s.wf(),
        legal_placement(s, m),
    ensures
        ({
            let g = m->Place_orientation_global_id as int;
            &&& move_cells(m).len() == orientation_size(g)
            &&& forall|i: int|
                0 <= i < move_cells(m).len() ==> #[trigger] move_cells(m)[i] == (orientation_cell(g, i).0
                    + m->Place_x as int, orientation_cell(g, i).1 + m->Place_y as int)
        }),
{
    reveal(legal_placement);
    let g = m->Place_orientation_global_id as int;
    assert forall|i: int| 0 <= i < move_cells(m).len() implies #[trigger] move_cells(m)[i] == (
        orientation_cell(g, i).0 + m->Place_x as int,
        orientation_cell(g, i).1 + m->Place_y as int,
    ) by {
        lemma_shifted_kept(orientation_cells(g), m->Place_x as int, m->Place_y as int, i);
    }
}

proof fn lemma_place_board(s: StateModel, m: MoveModel)
    requires
        s.wf(),
        legal_placement(s, m),
    ensures
        ({
            let p = m->Place_player as int;
            let g = m->Place_orientation_global_id as int;
            let x = m->Place_x as int;
            let y = m->Place_y as int;
            let n = next_state(s, m);
            &&& n.board.len() == s.board.len()
            &&& forall|k: int|
                0 <= k < s.board.len() ==> #[trigger] n.board[k] == (if exists|i: int|
                    0 <= i < orientation_size(g) && (orientation_cell(g, i).1 + y) * 14 + (
                    #[trigger] orientation_cell(g, i)).0 + x == k {
                    p as i8
                } else {
                    s.board[k]
                })
        }),
{
    lemma_placement_cells(s, m);
    lemma_legal_placement_shape(s, m);
    lemma_placement_offsets(s, m);
    let p = m->Place_player as int;
    let g = m->Place_orientation_global_id as int;
    let x = m->Place_x as int;
    let y = m->Place_y as int;
    let cells = move_cells(m);
    let n = next_state(s, m);
    assert(n.board == paint(s.board, cells, p as i8));
    lemma_paint(s.board, cells, p as i8, 0);
    assert forall|k: int| 0 <= k < s.board.len() implies #[trigger] n.board[k] == (if exists|i: int|
        0 <= i < orientation_size(g) && (orientation_cell(g, i).1 + y) * 14 + (
        #[trigger] orientation_cell(g, i)).0 + x == k {
        p as i8
    } else {
        s.board[k]
    }) by {
        lemma_paint(s.board, cells, p as i8, k);
        if exists|i: int| 0 <= i < cells.len() && cell_index(#[trigger] cells[i].0, cells[i].1) == k {
            let i = choose|i: int| 0 <= i < cells.len() && cell_index(#[trigger] cells[i].0, cells[i].1) == k;
            assert(cells[i] == (orientation_cell(g, i).0 + x, orientation_cell(g, i).1 + y));
        }
        if exists|i: int|
            0 <= i < orientation_size(g) && (orientation_cell(g, i).1 + y) * 14 + (
            #[trigger] orientation_cell(g, i)).0 + x == k {
            let i = choose|i: int|
                0 <= i < orientation_size(g) && (orientation_cell(g, i).1 + y) * 14 + (
                #[trigger] orientation_cell(g, i)).0 + x == k;
            assert(cells[i] == (orientation_cell(g, i).0 + x, orientation_cell(g, i).1 + y));
            assert(cell_index(cells[i].0, cells[i].1) == k);
        }
    }
}

proof fn lemma_place_start(s: StateModel, m: MoveModel)
    requires
        s.wf(),
        legal_placement(s, m),
    ensures
        ({
            let p = m->Place_player as int;
            let q = 1 - p;
            let g = m->Place_orientation_global_id as int;
            let x = m->Place_x as int;
            let y = m->Place_y as int;
            let n = next_state(s, m);
            &&& (s.placed_pieces[p].len() == 0 && s.start_policy == StartPolicy::ChooseStart
                && s.start_assignment[p] is None) ==> {
                let a = exists|i: int|
                    0 <= i < orientation_size(g) && #[trigger] orientation_cell(g, i).0 + x == 0
                        && orientation_cell(g, i).1 + y == 0;
                &&& n.start_assignment[p] == Some(if a { StartPoint::A } else { StartPoint::B })
                &&& n.start_assignment[q] == Some(if a { StartPoint::B } else { StartPoint::A })
            }
            &&& !(s.placed_pieces[p].len() == 0 && s.start_policy == StartPolicy::ChooseStart
                && s.start_assignment[p] is None) ==> n.start_assignment == s.start_assignment
        }),
{
    lemma_placement_cells(s, m);
    lemma_legal_placement_shape(s, m);
    lemma_placement_offsets(s, m);
    let g = m->Place_orientation_global_id as int;
    let x = m->Place_x as int;
    let y = m->Place_y as int;
    let cells = move_cells(m);
    let a = exists|i: int|
        0 <= i < orientation_size(g) && #[trigger] orientation_cell(g, i).0 + x == 0
            && orientation_cell(g, i).1 + y == 0;
    assert(crate::rules::covers(cells, StartPoint::A) == a) by {
        if a {
            let i = choose|i: int|
                0 <= i < orientation_size(g) && #[trigger] orientation_cell(g, i).0 + x == 0
                    && orientation_cell(g, i).1 + y == 0;
            assert(cells[i] == (orientation_cell(g, i).0 + x, orientation_cell(g, i).1 + y));
            assert(cells[i] == (0int, 0int));
        }
        if crate::rules::covers(cells, StartPoint::A) {
            let i = choose|i: int| 0 <= i < cells.len() && cells[i] == (0int, 0int);
            assert(cells[i] == (orientation_cell(g, i).0 + x, orientation_cell(g, i).1 + y));
        }
    }
}

/// When every offset moved by `(x, y)` lands on the board, all of them are kept.
proof fn lemma_shifted_full(cells: Seq<(int, int)>, x: int, y: int)
    requires
        forall|i: int| 0 <= i < cells.len() ==> in_bounds(#[trigger] cells[i].0 + x, cells[i].1 + y),
    ensures
        shifted_in_bounds(cells, x, y).len() == cells.len(),
    decreases cells.len(),
{
    if cells.len() > 0 {
        let init = cells.drop_last();
        assert forall|i: int| 0 <= i < init.len() implies in_bounds(#[trigger] init[i].0 + x, init[i].1 + y) by {
            assert(init[i] == cells[i]);
        }
        lemma_shifted_full(init, x, y);
        assert(in_bounds(cells[cells.len() - 1].0 + x, cells[cells.len() - 1].1 + y));
    }
}

/// The rules of a placement by `p` of orientation `g` of a piece with its
/// box corner at `(x, y)`, over the board itself: it is legal exactly when
/// the game is on and it is `p`'s turn; the piece is in `p`'s hand and `g`
/// is one of its orientations; every cell of the piece lies on the board
/// and is empty; and either it is `p`'s first piece and covers a start
/// corner `p` may use (`(0, 0)` for the first player and `(13, 13)` for
/// the second under `FixedStart`; under `ChooseStart` either corner not
/// already given to the other side), or no cell of the piece has a cell of
/// `p` to its left, right, above or below, and some cell of the piece has a
/// cell of `p` diagonally next to it.
pub proof fn lemma_legal_placement_rules(s: StateModel, m: MoveModel)
    requires
        s.wf(),
        m is Place,
    ensures
        legal_placement(s, m) <==> ({
            let p = m->Place_player;
            let g = m->Place_orientation_global_id as int;
            let x = m->Place_x as int;
            let y = m->Place_y as int;
            let b = s.board;
            let may_a = if s.start_policy == StartPolicy::FixedStart {
                p == 0
            } else {
                s.start_assignment[p as int] != Some(StartPoint::B)
            };
            let may_b = if s.start_policy == StartPolicy::FixedStart {
                p == 1
            } else {
                s.start_assignment[p as int] != Some(StartPoint::A)
            };
            &&& s.status == GameStatus::Playing
            &&& p == s.current_player
            &&& s.remaining_pieces[p as int].contains(m->Place_piece_id)
            &&& g < ORIENTATION_COUNT
            &&& orientation_name(g) == m->Place_piece_id
            &&& forall|i: int|
                #![trigger orientation_cell(g, i)]
                0 <= i < orientation_size(g) ==> {
                    let cx = orientation_cell(g, i).0 + x;
                    let cy = orientation_cell(g, i).1 + y;
                    &&& 0 <= cx < 14
                    &&& 0 <= cy < 14
                    &&& b[cy * 14 + cx] == EMPTY
                }
            &&& if s.placed_pieces[p as int].len() == 0 {
                exists|i: int|
                    #![trigger orientation_cell(g, i)]
                    0 <= i < orientation_size(g) && {
                        let cx = orientation_cell(g, i).0 + x;
                        let cy = orientation_cell(g, i).1 + y;
                        ||| cx == 0 && cy == 0 && may_a
                        ||| cx == 13 && cy == 13 && may_b
                    }
            } else {
                &&& forall|i: int|
                    #![trigger orientation_cell(g, i)]
                    0 <= i < orientation_size(g) ==> {
                        let cx = orientation_cell(g, i).0 + x;
                        let cy = orientation_cell(g, i).1 + y;
                        &&& cell_at(b, cx + 1, cy) != p as i8
                        &&& cell_at(b, cx - 1, cy) != p as i8
                        &&& cell_at(b, cx, cy + 1) != p as i8
                        &&& cell_at(b, cx, cy - 1) != p as i8
                    }
                &&& exists|i: int|
                    #![trigger orientation_cell(g, i)]
                    0 <= i < orientation_size(g) && {
                        let cx = orientation_cell(g, i).0 + x;
                        let cy = orientation_cell(g, i).1 + y;
                        ||| cell_at(b, cx + 1, cy + 1) == p as i8
                        ||| cell_at(b, cx + 1, cy - 1) == p as i8
                        ||| cell_at(b, cx - 1, cy + 1) == p as i8
                        ||| cell_at(b, cx - 1, cy - 1) == p as i8
                    }
            }
        }),
{
    reveal(legal_placement);
    let p = m->Place_player;
    let g = m->Place_orientation_global_id as int;
    let x = m->Place_x as int;
    let y = m->Place_y as int;
    let cells = move_cells(m);
    if g < ORIENTATION_COUNT {
        let orig = orientation_cells(g);
        let on_board = forall|i: int|
            0 <= i < orientation_size(g) ==> in_bounds(
                #[trigger] orientation_cell(g, i).0 + x,
                orientation_cell(g, i).1 + y,
            );
        if on_board {
            assert forall|i: int| 0 <= i < orig.len() implies in_bounds(#[trigger] orig[i].0 + x, orig[i].1 + y) by {
                assert(orig[i] == orientation_cell(g, i));
            }
            lemma_shifted_full(orig, x, y);
        }
        if cells.len() == orientation_size(g) {
            assert forall|i: int| 0 <= i < orientation_size(g) implies cells[i] == (
                #[trigger] orientation_cell(g, i).0 + x,
                orientation_cell(g, i).1 + y,
            ) && in_bounds(orientation_cell(g, i).0 + x, orientation_cell(g, i).1 + y) by {
                lemma_shifted_kept(orig, x, y, i);
            }
            assert(cells_are_offsets(m));
            lemma_rules_empty(s, m);
            lemma_rules_edge(s, m);
            lemma_rules_corner(s, m);
            lemma_rules_first(s, m);
        } else {
            assert(!on_board);
            let i = choose|i: int|
                0 <= i < orientation_size(g) && !in_bounds(
                    #[trigger] orientation_cell(g, i).0 + x,
                    orientation_cell(g, i).1 + y,
                );
            assert(orientation_cell(g, i) == orientation_cell(g, i));
        }
    }
}

/// The cells of `m` are the offsets of its orientation moved by its box corner, all on the board.
spec fn cells_are_offsets(m: MoveModel) -> bool {
    let g = m->Place_orientation_global_id as int;
    &&& m is Place
    &&& g < ORIENTATION_COUNT
    &&& move_cells(m).len() == orientation_size(g)
    &&& forall|i: int|
        0 <= i < orientation_size(g) ==> move_cells(m)[i] == (
            #[trigger] orientation_cell(g, i).0 + m->Place_x as int,
            orientation_cell(g, i).1 + m->Place_y as int,
        ) && in_bounds(orientation_cell(g, i).0 + m->Place_x as int, orientation_cell(g, i).1 + m->Place_y as int)
}

proof fn lemma_cell_index_of(m: MoveModel, i: int)
    requires
        cells_are_offsets(m),
        0 <= i < move_cells(m).len(),
    ensures
        move_cells(m)[i] == (
            orientation_cell(m->Place_orientation_global_id as int, i).0 + m->Place_x as int,
            orientation_cell(m->Place_orientation_global_id as int, i).1 + m->Place_y as int,
        ),
        in_bounds(move_cells(m)[i].0, move_cells(m)[i].1),
{
    assert(orientation_cell(m->Place_orientation_global_id as int, i) == orientation_cell(
        m->Place_orientation_global_id as int,
        i,
    ));
}

proof fn lemma_rules_empty(s: StateModel, m: MoveModel)
    requires
        s.wf(),
        cells_are_offsets(m),
    ensures
        ({
            let g = m->Place_orientation_global_id as int;
            let x = m->Place_x as int;
            let y = m->Place_y as int;
            all_empty(s.board, move_cells(m)) <==> forall|i: int|
                #![trigger orientation_cell(g, i)]
                0 <= i < orientation_size(g) ==> {
                    let cx = orientation_cell(g, i).0 + x;
                    let cy = orientation_cell(g, i).1 + y;
                    &&& 0 <= cx < 14
                    &&& 0 <= cy < 14
                    &&& s.board[cy * 14 + cx] == EMPTY
                }
        }),
{
    let g = m->Place_orientation_global_id as int;
    let x = m->Place_x as int;
    let y = m->Place_y as int;
    let b = s.board;
    let cells = move_cells(m);
    if all_empty(b, cells) {
        assert forall|i: int| 0 <= i < orientation_size(g) implies {
            let cx = #[trigger] orientation_cell(g, i).0 + x;
            let cy = orientation_cell(g, i).1 + y;
            &&& 0 <= cx < 14
            &&& 0 <= cy < 14
            &&& b[cy * 14 + cx] == EMPTY
        } by {
            lemma_cell_index_of(m, i);
            assert(cell_at(b, cells[i].0, cells[i].1) == EMPTY);
        }
    }
    if forall|i: int|
        #![trigger orientation_cell(g, i)]
        0 <= i < orientation_size(g) ==> {
            let cx = orientation_cell(g, i).0 + x;
            let cy = orientation_cell(g, i).1 + y;
            &&& 0 <= cx < 14
            &&& 0 <= cy < 14
            &&& b[cy * 14 + cx] == EMPTY
        } {
        assert forall|i: int| 0 <= i < cells.len() implies #[trigger] cell_at(b, cells[i].0, cells[i].1) == EMPTY by {
            lemma_cell_index_of(m, i);
            assert(orientation_cell(g, i) == orientation_cell(g, i));
        }
    }
}

proof fn lemma_rules_edge(s: StateModel, m: MoveModel)
    requires
        s.wf(),
        cells_are_offsets(m),
    ensures
        ({
            let p = m->Place_player;
            let g = m->Place_orientation_global_id as int;
            let x = m->Place_x as int;
            let y = m->Place_y as int;
            let b = s.board;
            crate::rules::no_edge_contact(b, move_cells(m), p as i8) <==> forall|i: int|
                #![trigger orientation_cell(g, i)]
                0 <= i < orientation_size(g) ==> {
                    let cx = orientation_cell(g, i).0 + x;
                    let cy = orientation_cell(g, i).1 + y;
                    &&& cell_at(b, cx + 1, cy) != p as i8
                    &&& cell_at(b, cx - 1, cy) != p as i8
                    &&& cell_at(b, cx, cy + 1) != p as i8
                    &&& cell_at(b, cx, cy - 1) != p as i8
                }
        }),
{
    let g = m->Place_orientation_global_id as int;
    let cells = move_cells(m);
    assert forall|i: int| 0 <= i < cells.len() implies #[trigger] cells[i] == (
        orientation_cell(g, i).0 + m->Place_x as int,
        orientation_cell(g, i).1 + m->Place_y as int,
    ) by {
        lemma_cell_index_of(m, i);
    }
}

proof fn lemma_rules_corner(s: StateModel, m: MoveModel)
    requires
        s.wf(),
        cells_are_offsets(m),
    ensures
        ({
            let p = m->Place_player;
            let g = m->Place_orientation_global_id as int;
            let x = m->Place_x as int;
            let y = m->Place_y as int;
            let b = s.board;
            crate::rules::some_corner_contact(b, move_cells(m), p as i8) <==> exists|i: int|
                #![trigger orientation_cell(g, i)]
                0 <= i < orientation_size(g) && {
                    let cx = orientation_cell(g, i).0 + x;
                    let cy = orientation_cell(g, i).1 + y;
                    ||| cell_at(b, cx + 1, cy + 1) == p as i8
                    ||| cell_at(b, cx + 1, cy - 1) == p as i8
                    ||| cell_at(b, cx - 1, cy + 1) == p as i8
                    ||| cell_at(b, cx - 1, cy - 1) == p as i8
                }
        }),
{
    let p = m->Place_player;
    let g = m->Place_orientation_global_id as int;
    let b = s.board;
    let cells = move_cells(m);
    if crate::rules::some_corner_contact(b, cells, p as i8) {
        let i = choose|i: int| 0 <= i < cells.len() && crate::rules::corner_owned(b, #[trigger] cells[i], p as i8);
        lemma_cell_index_of(m, i);
    }
    assert forall|i: int| 0 <= i < cells.len() implies #[trigger] cells[i] == (
        orientation_cell(g, i).0 + m->Place_x as int,
        orientation_cell(g, i).1 + m->Place_y as int,
    ) by {
        lemma_cell_index_of(m, i);
    }
}

proof fn lemma_rules_first(s: StateModel, m: MoveModel)
    requires
        s.wf(),
        cells_are_offsets(m),
    ensures
        ({
            let p = m->Place_player;
            let g = m->Place_orientation_global_id as int;
            let x = m->Place_x as int;
            let y = m->Place_y as int;
            let may_a = if s.start_policy == StartPolicy::FixedStart {
                p == 0
            } else {
                s.start_assignment[p as int] != Some(StartPoint::B)
            };
            let may_b = if s.start_policy == StartPolicy::FixedStart {
                p != 0
            } else {
                s.start_assignment[p as int] != Some(StartPoint::A)
            };
            crate::rules::first_move_ok(s, p, move_cells(m)) <==> exists|i: int|
                #![trigger orientation_cell(g, i)]
                0 <= i < orientation_size(g) && {
                    let cx = orientation_cell(g, i).0 + x;
                    let cy = orientation_cell(g, i).1 + y;
                    ||| cx == 0 && cy == 0 && may_a
                    ||| cx == 13 && cy == 13 && may_b
                }
        }),
{
    let p = m->Place_player;
    let g = m->Place_orientation_global_id as int;
    let x = m->Place_x as int;
    let y = m->Place_y as int;
    let cells = move_cells(m);
    let may_a = if s.start_policy == StartPolicy::FixedStart {
        p == 0
    } else {
        s.start_assignment[p as int] != Some(StartPoint::B)
    };
    let may_b = if s.start_policy == StartPolicy::FixedStart {
        p != 0
    } else {
        s.start_assignment[p as int] != Some(StartPoint::A)
    };
    let rhs = exists|i: int|
        #![trigger orientation_cell(g, i)]
        0 <= i < orientation_size(g) && {
            let cx = orientation_cell(g, i).0 + x;
            let cy = orientation_cell(g, i).1 + y;
            ||| cx == 0 && cy == 0 && may_a
            ||| cx == 13 && cy == 13 && may_b
        };
    let ca = crate::rules::covers(cells, StartPoint::A);
    let cb = crate::rules::covers(cells, StartPoint::B);
    assert(ca == exists|i: int|
        #![trigger orientation_cell(g, i)]
        0 <= i < orientation_size(g) && orientation_cell(g, i).0 + x == 0 && orientation_cell(g, i).1 + y == 0) by {
        if ca {
            let i = choose|i: int| 0 <= i < cells.len() && cells[i] == (0int, 0int);
            lemma_cell_index_of(m, i);
        }
        if exists|i: int|
            #![trigger orientation_cell(g, i)]
            0 <= i < orientation_size(g) && orientation_cell(g, i).0 + x == 0 && orientation_cell(g, i).1 + y == 0 {
            let i = choose|i: int|
                #![trigger orientation_cell(g, i)]
                0 <= i < orientation_size(g) && orientation_cell(g, i).0 + x == 0 && orientation_cell(g, i).1 + y == 0;
            lemma_cell_index_of(m, i);
            assert(cells[i] == (0int, 0int));
        }
    }
    assert(cb == exists|i: int|
        #![trigger orientation_cell(g, i)]
        0 <= i < orientation_size(g) && orientation_cell(g, i).0 + x == 13 && orientation_cell(g, i).1 + y == 13) by {
        if cb {
            let i = choose|i: int| 0 <= i < cells.len() && cells[i] == (13int, 13int);
            lemma_cell_index_of(m, i);
        }
        if exists|i: int|
            #![trigger orientation_cell(g, i)]
            0 <= i < orientation_size(g) && orientation_cell(g, i).0 + x == 13 && orientation_cell(g, i).1 + y == 13 {
            let i = choose|i: int|
                #![trigger orientation_cell(g, i)]
                0 <= i < orientation_size(g) && orientation_cell(g, i).0 + x == 13 && orientation_cell(g, i).1 + y == 13;
            lemma_cell_index_of(m, i);
            assert(cells[i] == (13int, 13int));
        }
    }
    assert(crate::rules::first_move_ok(s, p, cells) == ((ca && may_a) || (cb && may_b)));
    if rhs {
        let i = choose|i: int|
            #![trigger orientation_cell(g, i)]
            0 <= i < orientation_size(g) && {
                let cx = orientation_cell(g, i).0 + x;
                let cy = orientation_cell(g, i).1 + y;
                ||| cx == 0 && cy == 0 && may_a
                ||| cx == 13 && cy == 13 && may_b
            };
        assert(orientation_cell(g, i) == orientation_cell(g, i));
    }
    if ca && may_a {
        let i = choose|i: int|
            #![trigger orientation_cell(g, i)]
            0 <= i < orientation_size(g) && orientation_cell(g, i).0 + x == 0 && orientation_cell(g, i).1 + y == 0;
        assert(orientation_cell(g, i) == orientation_cell(g, i));
    }
    if cb && may_b {
        let i = choose|i: int|
            #![trigger orientation_cell(g, i)]
            0 <= i < orientation_size(g) && orientation_cell(g, i).0 + x == 13 && orientation_cell(g, i).1 + y == 13;
        assert(orientation_cell(g, i) == orientation_cell(g, i));
    }
}

/// A pass is legal exactly when the game is on, it is the passing player's
/// turn, and no placement at all is legal for them.
pub proof fn lemma_pass_rule(s: StateModel, player: nat)
    ensures
        legal_move(s, MoveModel::Pass { player }) <==> (s.status == GameStatus::Playing && player
            == s.current_player && forall|m: MoveModel| !#[trigger] legal_placement(s, m)),
{
    assert(with_player(s, s.current_player) == s);
    let pass = MoveModel::Pass { player };
    assert(!legal_placement(s, pass)) by {
        reveal(legal_placement);
    }
}

/// What a legal pass by `p` does: `p` is marked as having passed and the
/// pass count grows by one; the board, the hands, the placed pieces, the
/// last pieces, the start points and the other player's mark stay. If the
/// game goes on, the other player moves next and the turn counter grows by
/// one; if it ends, both stay.
pub proof fn lemma_pass_effects(s: StateModel, m: MoveModel)
    requires
        s.wf(),
        legal_move(s, m),
        m is Pass,
    ensures
        ({
            let p = m->Pass_player as int;
            let q = 1 - p;
            let n = next_state(s, m);
            &&& p == s.current_player
            &&& n.forced_passed[p] == true
            &&& n.forced_passed[q] == s.forced_passed[q]
            &&& n.consecutive_passes == s.consecutive_passes + 1
            &&& n.board == s.board
            &&& n.remaining_pieces == s.remaining_pieces
            &&& n.placed_pieces == s.placed_pieces
            &&& n.last_placed_piece == s.last_placed_piece
            &&& n.start_assignment == s.start_assignment
            &&& n.start_policy == s.start_policy
            &&& n.status == GameStatus::Playing ==> n.current_player == q && n.turn == s.turn + 1
            &&& n.status != GameStatus::Playing ==> n.status == GameStatus::Finished
                && n.current_player == p && n.turn == s.turn
        }),
{
    assert(!legal_placement(s, m)) by {
        reveal(legal_placement);
    }
}

} // verus!
