//! Placement rules: which cells a move covers and when a placement is legal.
use vstd::prelude::*;
use crate::table::{
    lemma_table_facts, orientation_cell, touches_box_origin_edges, orientation_cells, orientation_name, orientation_size,
    BOARD_CELLS, BOARD_SIZE, EMPTY, ORIENTATION_COUNT,
};
use crate::pieces::{
    cell_pair, get_orientation, get_orientations, lemma_orientations_named, orientation_model,
    orientations_named,
};
use crate::types::{
    names, GameStatus, Move, MoveModel, StartPoint, StartPolicy, State, StateModel,
};

verus! {

/// The index of cell `(x, y)` in a board.
pub open spec fn cell_index(x: int, y: int) -> int {
    y * BOARD_SIZE + x
}

pub open spec fn in_bounds(x: int, y: int) -> bool {
    0 <= x < BOARD_SIZE && 0 <= y < BOARD_SIZE
}

/// The owner of cell `(x, y)`, or `EMPTY` off the board.
pub open spec fn cell_at(board: Seq<i8>, x: int, y: int) -> i8 {
    if in_bounds(x, y) {
        board[cell_index(x, y)]
    } else {
        EMPTY
    }
}

/// The offsets `cells` moved by `(x, y)`, keeping only those on the board, in order.
pub open spec fn shifted_in_bounds(cells: Seq<(int, int)>, x: int, y: int) -> Seq<(int, int)>
    decreases cells.len(),
{
    if cells.len() == 0 {
        Seq::empty()
    } else {
        let rest = shifted_in_bounds(cells.drop_last(), x, y);
        let c = (cells.last().0 + x, cells.last().1 + y);
        if in_bounds(c.0, c.1) {
            rest.push(c)
        } else {
            rest
        }
    }
}

/// The board cells a move covers: the cells of its orientation placed at
/// `(x, y)`, without those that fall off the board.
pub open spec fn move_cells(m: MoveModel) -> Seq<(int, int)> {
    match m {
        MoveModel::Place { orientation_global_id, x, y, .. } => if orientation_global_id
            < ORIENTATION_COUNT {
            shifted_in_bounds(orientation_cells(orientation_global_id as int), x as int, y as int)
        } else {
            Seq::empty()
        },
        MoveModel::Pass { .. } => Seq::empty(),
    }
}

pub open spec fn start_cell(point: StartPoint) -> (int, int) {
    match point {
        StartPoint::A => (0, 0),
        StartPoint::B => (13, 13),
    }
}

pub open spec fn covers(cells: Seq<(int, int)>, point: StartPoint) -> bool {
    cells.contains(start_cell(point))
}

/// The start point a player's first piece must cover, if it is fixed.
pub open spec fn required_start(s: StateModel, player: nat) -> Option<StartPoint> {
    if s.start_policy == StartPolicy::FixedStart {
        Some(
            if player == 0 {
                StartPoint::A
            } else {
                StartPoint::B
            },
        )
    } else {
        s.start_assignment[player as int]
    }
}

/// Some edge neighbour of `c` belongs to `player`.
pub open spec fn edge_owned(board: Seq<i8>, c: (int, int), player: i8) -> bool {
    ||| cell_at(board, c.0 + 1, c.1) == player
    ||| cell_at(board, c.0 - 1, c.1) == player
    ||| cell_at(board, c.0, c.1 + 1) == player
    ||| cell_at(board, c.0, c.1 - 1) == player
}

/// Some corner neighbour of `c` belongs to `player`.
pub open spec fn corner_owned(board: Seq<i8>, c: (int, int), player: i8) -> bool {
    ||| cell_at(board, c.0 + 1, c.1 + 1) == player
    ||| cell_at(board, c.0 + 1, c.1 - 1) == player
    ||| cell_at(board, c.0 - 1, c.1 + 1) == player
    ||| cell_at(board, c.0 - 1, c.1 - 1) == player
}

pub open spec fn all_empty(board: Seq<i8>, cells: Seq<(int, int)>) -> bool {
    forall|i: int| 0 <= i < cells.len() ==> #[trigger] cell_at(board, cells[i].0, cells[i].1) == EMPTY
}

pub open spec fn no_edge_contact(board: Seq<i8>, cells: Seq<(int, int)>, player: i8) -> bool {
    forall|i: int| 0 <= i < cells.len() ==> !edge_owned(board, #[trigger] cells[i], player)
}

pub open spec fn some_corner_contact(board: Seq<i8>, cells: Seq<(int, int)>, player: i8) -> bool {
    exists|i: int| 0 <= i < cells.len() && corner_owned(board, #[trigger] cells[i], player)
}

/// What a player's first piece must satisfy: cover its start point, or either one while unassigned.
pub open spec fn first_move_ok(s: StateModel, player: nat, cells: Seq<(int, int)>) -> bool {
    match required_start(s, player) {
        Some(point) => covers(cells, point),
        None => covers(cells, StartPoint::A) || covers(cells, StartPoint::B),
    }
}

/// A placement is legal: the game is on, it is the mover's turn, the piece
/// is still in hand and matches the orientation, every cell lies on the
/// board and is empty, and either it is the mover's first piece and covers
/// the right start point, or it touches the mover's pieces at a corner and
/// never along an edge.
#[verifier::opaque]
pub open spec fn legal_placement(s: StateModel, m: MoveModel) -> bool {
    match m {
        MoveModel::Place { player, piece_id, orientation_global_id, .. } => {
            let cells = move_cells(m);
            let g = orientation_global_id as int;
            &&& s.status == GameStatus::Playing
            &&& player == s.current_player
            &&& s.remaining_pieces[player as int].contains(piece_id)
            &&& g < ORIENTATION_COUNT
            &&& orientation_name(g) == piece_id
            &&& cells.len() == orientation_size(g)
            &&& all_empty(s.board, cells)
            &&& if s.placed_pieces[player as int].len() == 0 {
                first_move_ok(s, player, cells)
            } else {
                &&& no_edge_contact(s.board, cells, player as i8)
                &&& some_corner_contact(s.board, cells, player as i8)
            }
        },
        MoveModel::Pass { .. } => false,
    }
}

pub open spec fn upair(c: (usize, usize)) -> (int, int) {
    (c.0 as int, c.1 as int)
}

pub open spec fn cells_view(v: Vec<(usize, usize)>) -> Seq<(int, int)> {
    v@.map_values(|c: (usize, usize)| upair(c))
}

pub proof fn lemma_shifted_len(cells: Seq<(int, int)>, x: int, y: int)
    ensures
        shifted_in_bounds(cells, x, y).len() <= cells.len(),
    decreases cells.len(),
{
    if cells.len() > 0 {
        lemma_shifted_len(cells.drop_last(), x, y);
    }
}

/// Every kept cell lies on the board.
pub proof fn lemma_shifted_on_board(cells: Seq<(int, int)>, x: int, y: int, i: int)
    requires
        0 <= i < shifted_in_bounds(cells, x, y).len(),
    ensures
        in_bounds(shifted_in_bounds(cells, x, y)[i].0, shifted_in_bounds(cells, x, y)[i].1),
    decreases cells.len(),
{
    let rest = shifted_in_bounds(cells.drop_last(), x, y);
    if i < rest.len() {
        lemma_shifted_on_board(cells.drop_last(), x, y, i);
    }
}

/// When no cell falls off the board, cell `i` is kept, moved by `(x, y)`.
pub proof fn lemma_shifted_kept(cells: Seq<(int, int)>, x: int, y: int, i: int)
    requires
        shifted_in_bounds(cells, x, y).len() == cells.len(),
        0 <= i < cells.len(),
    ensures
        in_bounds(cells[i].0 + x, cells[i].1 + y),
        shifted_in_bounds(cells, x, y)[i] == (cells[i].0 + x, cells[i].1 + y),
    decreases cells.len(),
{
    lemma_shifted_len(cells.drop_last(), x, y);
    if i < cells.len() - 1 {
        lemma_shifted_kept(cells.drop_last(), x, y, i);
    }
}

/// One step of `shifted_in_bounds` over a growing prefix.
pub proof fn lemma_shifted_step(cells: Seq<(int, int)>, i: int, x: int, y: int)
    requires
        0 <= i < cells.len(),
    ensures
        shifted_in_bounds(cells.take(i + 1), x, y) == (if in_bounds(cells[i].0 + x, cells[i].1 + y) {
            shifted_in_bounds(cells.take(i), x, y).push((cells[i].0 + x, cells[i].1 + y))
        } else {
            shifted_in_bounds(cells.take(i), x, y)
        }),
{
    assert(cells.take(i + 1).drop_last() =~= cells.take(i));
    assert(cells.take(i + 1).last() == cells[i]);
}

/// The facts of the table about one orientation.
pub proof fn lemma_orientation_facts(g: int)
    requires
        0 <= g < ORIENTATION_COUNT,
    ensures
        1 <= orientation_size(g) <= 5,
        orientation_cells(g).len() == orientation_size(g),
        forall|k: int|
            0 <= k < orientation_size(g) ==> 0 <= #[trigger] orientation_cells(g)[k].0 < 5 && 0
                <= orientation_cells(g)[k].1 < 5,
        exists|k: int| 0 <= k < orientation_size(g) && #[trigger] orientation_cells(g)[k].0 == 0,
        exists|k: int| 0 <= k < orientation_size(g) && #[trigger] orientation_cells(g)[k].1 == 0,
{
    lemma_table_facts();
    assert(touches_box_origin_edges(g));
    let i = choose|i: int| 0 <= i < orientation_size(g) && (#[trigger] orientation_cell(g, i)).0 == 0;
    assert(orientation_cells(g)[i].0 == 0);
    let j = choose|i: int| 0 <= i < orientation_size(g) && (#[trigger] orientation_cell(g, i)).1 == 0;
    assert(orientation_cells(g)[j].1 == 0);
    assert forall|k: int| 0 <= k < orientation_size(g) implies 0 <= #[trigger] orientation_cells(g)[k].0 < 5 && 0
        <= orientation_cells(g)[k].1 < 5 by {
        assert(orientation_cells(g)[k] == orientation_cell(g, k));
    }
}

/// The owner of `(x, y)`, or `EMPTY` off the board.
fn get_cell(board: &[i8; BOARD_CELLS], x: isize, y: isize) -> (r: i8)
    ensures
        r == cell_at(board@, x as int, y as int),
{
    if !(x >= 0 && y >= 0 && x < BOARD_SIZE as isize && y < BOARD_SIZE as isize) {
        return EMPTY;
    }
    board[(y as usize) * BOARD_SIZE + (x as usize)]
}

fn edge_owned_exec(board: &[i8; BOARD_CELLS], x: usize, y: usize, player: i8) -> (r: bool)
    requires
        x < BOARD_SIZE,
        y < BOARD_SIZE,
    ensures
        r == edge_owned(board@, (x as int, y as int), player),
{
    let x = x as isize;
    let y = y as isize;
    get_cell(board, x + 1, y) == player || get_cell(board, x - 1, y) == player || get_cell(
        board,
        x,
        y + 1,
    ) == player || get_cell(board, x, y - 1) == player
}

fn corner_owned_exec(board: &[i8; BOARD_CELLS], x: usize, y: usize, player: i8) -> (r: bool)
    requires
        x < BOARD_SIZE,
        y < BOARD_SIZE,
    ensures
        r == corner_owned(board@, (x as int, y as int), player),
{
    let x = x as isize;
    let y = y as isize;
    get_cell(board, x + 1, y + 1) == player || get_cell(board, x + 1, y - 1) == player
        || get_cell(board, x - 1, y + 1) == player || get_cell(board, x - 1, y - 1) == player
}

/// The board cells covered by a move, in the order of its orientation's cells.
pub fn cells_for_move(mv: &Move) -> (r: Vec<(usize, usize)>)
    ensures
        cells_view(r) == move_cells(mv@),
{
    let (x, y, g) = match mv {
        Move::Place { orientation_global_id, x, y, .. } => (*x, *y, *orientation_global_id),
        Move::Pass { .. } => {
            let r: Vec<(usize, usize)> = Vec::new();
            assert(cells_view(r) =~= Seq::<(int, int)>::empty());
            return r;
        },
    };
    let orientation = match get_orientation(g) {
        Some(o) => o,
        None => {
            let r: Vec<(usize, usize)> = Vec::new();
            assert(cells_view(r) =~= Seq::<(int, int)>::empty());
            return r;
        },
    };
    proof {
        lemma_orientation_facts(g as int);
    }
    let ghost cells = orientation_cells(g as int);
    let mut r: Vec<(usize, usize)> = Vec::new();
    let mut i: usize = 0;
    while i < orientation.cells.len()
        invariant
            orientation@ == orientation_model(g as int),
            g < ORIENTATION_COUNT,
            cells == orientation_cells(g as int),
            i <= cells.len(),
            cells_view(r) == shifted_in_bounds(cells.take(i as int), x as int, y as int),
            forall|k: int| 0 <= k < cells.len() ==> 0 <= #[trigger] cells[k].0 < 5 && 0 <= cells[k].1 < 5,
        decreases orientation.cells.len() - i,
    {
        assert(cell_pair(orientation.cells@[i as int]) == cells[i as int]);
        let c = orientation.cells[i];
        proof {
            lemma_shifted_step(cells, i as int, x as int, y as int);
        }
        let ghost before = r;
        if x < BOARD_SIZE && y < BOARD_SIZE {
            let cx = x + c[0] as usize;
            let cy = y + c[1] as usize;
            if cx < BOARD_SIZE && cy < BOARD_SIZE {
                r.push((cx, cy));
                assert(cells_view(r) =~= cells_view(before).push((cx as int, cy as int)));
            }
        }
        i = i + 1;
    }
    assert(cells.take(cells.len() as int) =~= cells);
    r
}

/// The list holds a piece with the given name.
pub fn contains_name(list: &Vec<String>, name: &String) -> (r: bool)
    ensures
        r == names(*list).contains(name@),
{
    let mut i: usize = 0;
    while i < list.len()
        invariant
            i <= list.len(),
            forall|k: int| 0 <= k < i ==> names(*list)[k] != name@,
        decreases list.len() - i,
    {
        if list[i] == *name {
            assert(names(*list)[i as int] == name@);
            return true;
        }
        i = i + 1;
    }
    false
}

fn start_point(point: StartPoint) -> (r: (usize, usize))
    ensures
        upair(r) == start_cell(point),
{
    match point {
        StartPoint::A => (0, 0),
        StartPoint::B => (13, 13),
    }
}

pub fn covers_start_point(cells: &Vec<(usize, usize)>, point: StartPoint) -> (r: bool)
    ensures
        r == covers(cells_view(*cells), point),
{
    let start = start_point(point);
    let mut i: usize = 0;
    while i < cells.len()
        invariant
            i <= cells.len(),
            upair(start) == start_cell(point),
            forall|k: int| 0 <= k < i ==> cells_view(*cells)[k] != start_cell(point),
        decreases cells.len() - i,
    {
        if cells[i].0 == start.0 && cells[i].1 == start.1 {
            assert(cells_view(*cells)[i as int] == start_cell(point));
            return true;
        }
        i = i + 1;
    }
    false
}

fn required_start_point_for_first_move(state: &State, player: usize) -> (r: Option<StartPoint>)
    requires
        player < 2,
    ensures
        r == required_start(state@, player as nat),
{
    if state.start_policy == StartPolicy::FixedStart {
        return Some(
            if player == 0 {
                StartPoint::A
            } else {
                StartPoint::B
            },
        );
    }
    state.start_assignment[player]
}

/// Whether `mv` is a legal placement in `state`.
#[verifier::loop_isolation(false)]
pub fn is_legal_placement(state: &State, mv: &Move) -> (r: bool)
    requires
        state.status == GameStatus::Playing && mv@ is Place && mv@->Place_player
            == state.current_player ==> state.current_player < 2,
    ensures
        r == legal_placement(state@, mv@),
{
    reveal(legal_placement);
    if state.status != GameStatus::Playing {
        return false;
    }
    let (player, piece_id, g) = match mv {
        Move::Place { player, piece_id, orientation_global_id, .. } => (
            *player,
            piece_id,
            *orientation_global_id,
        ),
        Move::Pass { .. } => {
            return false;
        },
    };
    if player != state.current_player {
        return false;
    }
    if !contains_name(&state.remaining_pieces[player], piece_id) {
        return false;
    }
    let orientation = match get_orientation(g) {
        Some(o) => o,
        None => {
            return false;
        },
    };
    if !(orientation.piece_id == *piece_id) {
        return false;
    }
    let raw_cell_count = orientation.cells.len();
    let cells = cells_for_move(mv);
    if cells.len() != raw_cell_count {
        return false;
    }
    let ghost cv = cells_view(cells);
    assert forall|k: int| 0 <= k < cv.len() implies in_bounds(#[trigger] cv[k].0, cv[k].1) by {
        lemma_shifted_on_board(
            orientation_cells(g as int),
            mv@->Place_x as int,
            mv@->Place_y as int,
            k,
        );
    }
    let mut i: usize = 0;
    while i < cells.len()
        invariant
            i <= cells.len(),
            cv == cells_view(cells),
            forall|k: int| 0 <= k < cv.len() ==> in_bounds(#[trigger] cv[k].0, cv[k].1),
            all_empty(state.board@, cv.take(i as int)),
        decreases cells.len() - i,
    {
        let (x, y) = cells[i];
        assert(cv[i as int] == (x as int, y as int));
        if state.board[y * BOARD_SIZE + x] != EMPTY {
            assert(cell_at(state.board@, cv[i as int].0, cv[i as int].1) != EMPTY);
            return false;
        }
        assert forall|k: int| 0 <= k < i + 1 implies #[trigger] cell_at(
            state.board@,
            cv.take(i + 1)[k].0,
            cv.take(i + 1)[k].1,
        ) == EMPTY by {
            if k < i {
                assert(cv.take(i + 1)[k] == cv.take(i as int)[k]);
            }
        }
        i = i + 1;
    }
    assert(cv.take(cv.len() as int) =~= cv);
    let first_move = state.placed_pieces[player].len() == 0;
    if first_move {
        return match required_start_point_for_first_move(state, player) {
            Some(point) => covers_start_point(&cells, point),
            None => covers_start_point(&cells, StartPoint::A) || covers_start_point(
                &cells,
                StartPoint::B,
            ),
        };
    }
    let p = player as i8;
    let mut i: usize = 0;
    while i < cells.len()
        invariant
            i <= cells.len(),
            cv == cells_view(cells),
            forall|k: int| 0 <= k < cv.len() ==> in_bounds(#[trigger] cv[k].0, cv[k].1),
            forall|k: int| 0 <= k < i ==> !edge_owned(state.board@, #[trigger] cv[k], p),
        decreases cells.len() - i,
    {
        let (x, y) = cells[i];
        assert(cv[i as int] == (x as int, y as int));
        if edge_owned_exec(&state.board, x, y, p) {
            return false;
        }
        i = i + 1;
    }
    let mut i: usize = 0;
    while i < cells.len()
        invariant
            i <= cells.len(),
            cv == cells_view(cells),
            forall|k: int| 0 <= k < cv.len() ==> in_bounds(#[trigger] cv[k].0, cv[k].1),
            forall|k: int| 0 <= k < i ==> !corner_owned(state.board@, #[trigger] cv[k], p),
        decreases cells.len() - i,
    {
        let (x, y) = cells[i];
        assert(cv[i as int] == (x as int, y as int));
        if corner_owned_exec(&state.board, x, y, p) {
            return true;
        }
        i = i + 1;
    }
    false
}

/// `s` with `player` to move.
pub open spec fn with_player(s: StateModel, player: nat) -> StateModel {
    StateModel { current_player: player, ..s }
}

pub open spec fn moves_view(v: Vec<Move>) -> Seq<MoveModel> {
    v@.map_values(|m: Move| m@)
}

/// `player` could place some piece if it were their turn.
pub open spec fn has_legal_placement_for(s: StateModel, player: nat) -> bool {
    exists|m: MoveModel| #[trigger] legal_placement(with_player(s, player), m)
}

/// A legal move: a legal placement, or a pass by the player to move when
/// the game is on and they have no legal placement.
pub open spec fn legal_move(s: StateModel, m: MoveModel) -> bool {
    ||| legal_placement(s, m)
    ||| {
        &&& s.status == GameStatus::Playing
        &&& m == MoveModel::Pass { player: s.current_player }
        &&& !has_legal_placement_for(s, s.current_player)
    }
}

proof fn lemma_take_contains<A>(s: Seq<A>, k: int, a: A)
    requires
        0 <= k < s.len(),
    ensures
        s.take(k + 1).contains(a) <==> (s.take(k).contains(a) || s[k] == a),
{
    if s.take(k + 1).contains(a) {
        let i = choose|i: int| 0 <= i < k + 1 && #[trigger] s.take(k + 1)[i] == a;
        if i < k {
            assert(s.take(k)[i] == a);
        }
    }
    if s.take(k).contains(a) {
        let i = choose|i: int| 0 <= i < k && #[trigger] s.take(k)[i] == a;
        assert(s.take(k + 1)[i] == a);
    }
    if s[k] == a {
        assert(s.take(k + 1)[k] == a);
    }
}

/// What a legal placement says of its move: a placement of the player to
/// move, of a piece in hand, by one of that piece's orientations, with the
/// box corner on the board.
pub proof fn lemma_legal_placement_shape(s: StateModel, m: MoveModel)
    requires
        legal_placement(s, m),
    ensures
        m is Place,
        m->Place_player == s.current_player,
        s.status == GameStatus::Playing,
        s.remaining_pieces[s.current_player as int].contains(m->Place_piece_id),
        m->Place_orientation_global_id < ORIENTATION_COUNT,
        orientation_name(m->Place_orientation_global_id as int) == m->Place_piece_id,
        m->Place_x < BOARD_SIZE,
        m->Place_y < BOARD_SIZE,
{
    reveal(legal_placement);
    let g = m->Place_orientation_global_id as int;
    let cells = orientation_cells(g);
    lemma_orientation_facts(g);
    let i = choose|k: int| 0 <= k < orientation_size(g) && #[trigger] orientation_cells(g)[k].0 == 0;
    let j = choose|k: int| 0 <= k < orientation_size(g) && #[trigger] orientation_cells(g)[k].1 == 0;
    lemma_shifted_kept(cells, m->Place_x as int, m->Place_y as int, i);
    lemma_shifted_kept(cells, m->Place_x as int, m->Place_y as int, j);
}

/// `b` starts with `a`.
pub open spec fn extends<A>(a: Seq<A>, b: Seq<A>) -> bool {
    &&& a.len() <= b.len()
    &&& forall|i: int| 0 <= i < a.len() ==> b[i] == a[i]
}

proof fn lemma_extends_contains<A>(a: Seq<A>, b: Seq<A>, x: A)
    requires
        extends(a, b),
        a.contains(x),
    ensures
        b.contains(x),
{
    let i = choose|i: int| 0 <= i < a.len() && #[trigger] a[i] == x;
    assert(b[i] == x);
}

/// `m` places orientation `g` of `piece` with its box in row `y`.
pub open spec fn in_row(m: MoveModel, piece: Seq<char>, g: nat, y: nat) -> bool {
    &&& m is Place
    &&& m->Place_piece_id == piece
    &&& m->Place_orientation_global_id == g
    &&& m->Place_y == y
}

/// `m` places orientation `g` of `piece`.
pub open spec fn of_orientation(m: MoveModel, piece: Seq<char>, g: nat) -> bool {
    &&& m is Place
    &&& m->Place_piece_id == piece
    &&& m->Place_orientation_global_id == g
}

/// `m` places `piece`.
pub open spec fn of_piece(m: MoveModel, piece: Seq<char>) -> bool {
    &&& m is Place
    &&& m->Place_piece_id == piece
}

/// The placement of orientation `g` of `piece` by the player to move in `s`,
/// with its box corner at `(x, y)`.
pub open spec fn place_at(s: StateModel, piece: Seq<char>, g: nat, x: nat, y: nat) -> MoveModel {
    MoveModel::Place { player: s.current_player, piece_id: piece, orientation_global_id: g, x, y }
}

/// The legal placements of orientation `g` of `piece` with box row `y` and
/// box column below `n`, by column.
pub open spec fn row_placements(s: StateModel, piece: Seq<char>, g: nat, y: nat, n: nat) -> Seq<
    MoveModel,
>
    decreases n,
{
    if n == 0 {
        Seq::empty()
    } else {
        let before = row_placements(s, piece, g, y, (n - 1) as nat);
        let m = place_at(s, piece, g, (n - 1) as nat, y);
        if legal_placement(s, m) {
            before.push(m)
        } else {
            before
        }
    }
}

/// The legal placements of orientation `g` of `piece` with box row below `n`,
/// by row, then column.
pub open spec fn orientation_placements(s: StateModel, piece: Seq<char>, g: nat, n: nat) -> Seq<
    MoveModel,
>
    decreases n,
{
    if n == 0 {
        Seq::empty()
    } else {
        orientation_placements(s, piece, g, (n - 1) as nat) + row_placements(
            s,
            piece,
            g,
            (n - 1) as nat,
            BOARD_SIZE as nat,
        )
    }
}

/// The legal placements of the first `n` orientations of `piece`, by
/// ascending global id, then row, then column.
pub open spec fn piece_placements(s: StateModel, piece: Seq<char>, n: nat) -> Seq<MoveModel>
    decreases n,
{
    if n == 0 {
        Seq::empty()
    } else {
        let ids = orientations_named(piece, ORIENTATION_COUNT as int);
        piece_placements(s, piece, (n - 1) as nat) + orientation_placements(
            s,
            piece,
            ids[n - 1] as nat,
            BOARD_SIZE as nat,
        )
    }
}

/// The legal placements of the first `n` pieces of `hand`, piece by piece.
pub open spec fn hand_placements(s: StateModel, hand: Seq<Seq<char>>, n: nat) -> Seq<MoveModel>
    decreases n,
{
    if n == 0 {
        Seq::empty()
    } else {
        hand_placements(s, hand, (n - 1) as nat) + piece_placements(
            s,
            hand[n - 1],
            orientations_named(hand[n - 1], ORIENTATION_COUNT as int).len(),
        )
    }
}

/// The legal placements of `player` in `s`, as if it were their turn, in the
/// order they are generated: pieces in the order of their remaining list,
/// then orientations by global id, then rows, then columns. None once the
/// game is finished.
pub open spec fn placements_in_order(s: StateModel, player: nat) -> Seq<MoveModel> {
    if s.status == GameStatus::Playing {
        let t = with_player(s, player);
        hand_placements(t, t.remaining_pieces[player as int], t.remaining_pieces[player as int].len())
    } else {
        Seq::empty()
    }
}

/// The legal moves of `s` in the order they are generated: the legal
/// placements of the player to move, or a single pass when there is none;
/// none once the game is finished.
pub open spec fn legal_moves_in_order(s: StateModel) -> Seq<MoveModel> {
    let placements = placements_in_order(s, s.current_player);
    if s.status == GameStatus::Playing && placements.len() == 0 {
        seq![MoveModel::Pass { player: s.current_player }]
    } else {
        placements
    }
}

/// Appends the legal placements of orientation `g` of `piece_id` with box row `y`, by column.
fn collect_row(
    scoped: &State,
    player: usize,
    piece_id: &String,
    g: usize,
    y: usize,
    moves: &mut Vec<Move>,
)
    requires
        scoped.wf(),
        scoped.current_player == player,
        y < BOARD_SIZE,
        forall|i: int|
            0 <= i < old(moves)@.len() ==> legal_placement(scoped@, #[trigger] moves_view(*old(moves))[i]),
    ensures
        moves_view(*final(moves)) == moves_view(*old(moves)) + row_placements(
            scoped@,
            piece_id@,
            g as nat,
            y as nat,
            BOARD_SIZE as nat,
        ),
        extends(moves_view(*old(moves)), moves_view(*final(moves))),
        forall|i: int|
            0 <= i < final(moves)@.len() ==> legal_placement(
                scoped@,
                #[trigger] moves_view(*final(moves))[i],
            ),
        forall|m: MoveModel|
            #[trigger] legal_placement(scoped@, m) && m->Place_piece_id == piece_id@
                && m->Place_orientation_global_id == g && m->Place_y == y ==> moves_view(
                *final(moves),
            ).contains(m),
        forall|i: int|
            old(moves)@.len() <= i < final(moves)@.len() ==> in_row(
                #[trigger] moves_view(*final(moves))[i],
                piece_id@,
                g as nat,
                y as nat,
            ),
        moves_view(*old(moves)).no_duplicates() && (forall|i: int|
            0 <= i < old(moves)@.len() ==> !in_row(
                #[trigger] moves_view(*old(moves))[i],
                piece_id@,
                g as nat,
                y as nat,
            )) ==> moves_view(*final(moves)).no_duplicates(),
{
    let ghost start = moves_view(*moves);
    let ghost fresh = start.no_duplicates() && (forall|i: int|
        0 <= i < start.len() ==> !in_row(#[trigger] start[i], piece_id@, g as nat, y as nat));
    let mut x: usize = 0;
    while x < BOARD_SIZE
        invariant
            scoped.wf(),
            scoped.current_player == player,
            y < BOARD_SIZE,
            x <= BOARD_SIZE,
            moves_view(*moves) == start + row_placements(
                scoped@,
                piece_id@,
                g as nat,
                y as nat,
                x as nat,
            ),
            extends(start, moves_view(*moves)),
            forall|i: int| 0 <= i < moves@.len() ==> legal_placement(scoped@, #[trigger] moves_view(*moves)[i]),
            forall|m: MoveModel|
                #[trigger] legal_placement(scoped@, m) && m->Place_piece_id == piece_id@
                    && m->Place_orientation_global_id == g && m->Place_y == y && m->Place_x < x
                    ==> moves_view(*moves).contains(m),
            forall|i: int|
                start.len() <= i < moves@.len() ==> in_row(
                    #[trigger] moves_view(*moves)[i],
                    piece_id@,
                    g as nat,
                    y as nat,
                ) && moves_view(*moves)[i]->Place_x < x,
            fresh == (start.no_duplicates() && (forall|i: int|
                0 <= i < start.len() ==> !in_row(#[trigger] start[i], piece_id@, g as nat, y as nat))),
            fresh ==> moves_view(*moves).no_duplicates(),
        decreases BOARD_SIZE - x,
    {
        let mv = Move::Place { player, piece_id: piece_id.clone(), orientation_global_id: g, x, y };
        let ghost before = moves_view(*moves);
        if is_legal_placement(scoped, &mv) {
            moves.push(mv);
            proof {
                assert(moves_view(*moves) =~= before.push(mv@));
                assert(moves_view(*moves)[before.len() as int] == mv@);
                if fresh {
                    assert forall|i: int| 0 <= i < before.len() implies before[i] != mv@ by {
                        if i < start.len() {
                            assert(before[i] == start[i]);
                            assert(!in_row(start[i], piece_id@, g as nat, y as nat));
                        }
                    }
                    assert(moves_view(*moves).no_duplicates());
                }
            }
        }
        proof {
            assert(mv@ == place_at(scoped@, piece_id@, g as nat, x as nat, y as nat));
            assert(moves_view(*moves) =~= start + row_placements(
                scoped@,
                piece_id@,
                g as nat,
                y as nat,
                (x + 1) as nat,
            ));
            assert(extends(before, moves_view(*moves)));
            assert forall|m: MoveModel|
                #[trigger] legal_placement(scoped@, m) && m->Place_piece_id == piece_id@
                    && m->Place_orientation_global_id == g && m->Place_y == y && m->Place_x < x + 1
                    implies moves_view(*moves).contains(m) by {
                lemma_legal_placement_shape(scoped@, m);
                if m->Place_x < x {
                    lemma_extends_contains(before, moves_view(*moves), m);
                } else {
                    assert(m == mv@);
                    assert(moves_view(*moves)[before.len() as int] == m);
                }
            }
        }
        x = x + 1;
    }
    proof {
        assert forall|m: MoveModel|
            #[trigger] legal_placement(scoped@, m) && m->Place_piece_id == piece_id@
                && m->Place_orientation_global_id == g && m->Place_y == y implies moves_view(
                *moves,
            ).contains(m) by {
            lemma_legal_placement_shape(scoped@, m);
        }
    }
}

/// Appends the legal placements of orientation `g` of `piece_id`, by row then column.
fn collect_orientation(
    scoped: &State,
    player: usize,
    piece_id: &String,
    g: usize,
    moves: &mut Vec<Move>,
)
    requires
        scoped.wf(),
        scoped.current_player == player,
        forall|i: int|
            0 <= i < old(moves)@.len() ==> legal_placement(scoped@, #[trigger] moves_view(*old(moves))[i]),
    ensures
        moves_view(*final(moves)) == moves_view(*old(moves)) + orientation_placements(
            scoped@,
            piece_id@,
            g as nat,
            BOARD_SIZE as nat,
        ),
        extends(moves_view(*old(moves)), moves_view(*final(moves))),
        forall|i: int|
            0 <= i < final(moves)@.len() ==> legal_placement(
                scoped@,
                #[trigger] moves_view(*final(moves))[i],
            ),
        forall|m: MoveModel|
            #[trigger] legal_placement(scoped@, m) && m->Place_piece_id == piece_id@
                && m->Place_orientation_global_id == g ==> moves_view(*final(moves)).contains(m),
        forall|i: int|
            old(moves)@.len() <= i < final(moves)@.len() ==> of_orientation(
                #[trigger] moves_view(*final(moves))[i],
                piece_id@,
                g as nat,
            ),
        moves_view(*old(moves)).no_duplicates() && (forall|i: int|
            0 <= i < old(moves)@.len() ==> !of_orientation(
                #[trigger] moves_view(*old(moves))[i],
                piece_id@,
                g as nat,
            )) ==> moves_view(*final(moves)).no_duplicates(),
{
    let ghost start = moves_view(*moves);
    let ghost fresh = start.no_duplicates() && (forall|i: int|
        0 <= i < start.len() ==> !of_orientation(#[trigger] start[i], piece_id@, g as nat));
    let mut y: usize = 0;
    while y < BOARD_SIZE
        invariant
            scoped.wf(),
            scoped.current_player == player,
            y <= BOARD_SIZE,
            moves_view(*moves) == start + orientation_placements(
                scoped@,
                piece_id@,
                g as nat,
                y as nat,
            ),
            extends(start, moves_view(*moves)),
            forall|i: int| 0 <= i < moves@.len() ==> legal_placement(scoped@, #[trigger] moves_view(*moves)[i]),
            forall|m: MoveModel|
                #[trigger] legal_placement(scoped@, m) && m->Place_piece_id == piece_id@
                    && m->Place_orientation_global_id == g && m->Place_y < y ==> moves_view(
                    *moves,
                ).contains(m),
            forall|i: int|
                start.len() <= i < moves@.len() ==> of_orientation(
                    #[trigger] moves_view(*moves)[i],
                    piece_id@,
                    g as nat,
                ) && moves_view(*moves)[i]->Place_y < y,
            fresh == (start.no_duplicates() && (forall|i: int|
                0 <= i < start.len() ==> !of_orientation(#[trigger] start[i], piece_id@, g as nat))),
            fresh ==> moves_view(*moves).no_duplicates(),
        decreases BOARD_SIZE - y,
    {
        let ghost before = moves_view(*moves);
        proof {
            if fresh {
                assert forall|i: int| 0 <= i < before.len() implies !in_row(
                    #[trigger] before[i],
                    piece_id@,
                    g as nat,
                    y as nat,
                ) by {
                    if i < start.len() {
                        assert(before[i] == start[i]);
                        assert(!of_orientation(start[i], piece_id@, g as nat));
                    }
                }
            }
        }
        collect_row(scoped, player, piece_id, g, y, moves);
        proof {
            assert(moves_view(*moves) =~= start + orientation_placements(
                scoped@,
                piece_id@,
                g as nat,
                (y + 1) as nat,
            ));
            assert forall|i: int|
                start.len() <= i < moves@.len() implies of_orientation(
                    #[trigger] moves_view(*moves)[i],
                    piece_id@,
                    g as nat,
                ) && moves_view(*moves)[i]->Place_y < y + 1 by {
                if i < before.len() {
                    assert(moves_view(*moves)[i] == before[i]);
                }
            }
            assert forall|m: MoveModel|
                #[trigger] legal_placement(scoped@, m) && m->Place_piece_id == piece_id@
                    && m->Place_orientation_global_id == g && m->Place_y < y + 1 implies moves_view(
                    *moves,
                ).contains(m) by {
                if m->Place_y < y {
                    lemma_extends_contains(before, moves_view(*moves), m);
                }
            }
        }
        y = y + 1;
    }
    proof {
        assert forall|m: MoveModel|
            #[trigger] legal_placement(scoped@, m) && m->Place_piece_id == piece_id@
                && m->Place_orientation_global_id == g implies moves_view(*moves).contains(m) by {
            lemma_legal_placement_shape(scoped@, m);
        }
    }
}

/// Appends the legal placements of every orientation of `piece_id`, by ascending global id.
fn collect_piece(scoped: &State, player: usize, piece_id: &String, moves: &mut Vec<Move>)
    requires
        scoped.wf(),
        scoped.current_player == player,
        forall|i: int|
            0 <= i < old(moves)@.len() ==> legal_placement(scoped@, #[trigger] moves_view(*old(moves))[i]),
    ensures
        moves_view(*final(moves)) == moves_view(*old(moves)) + piece_placements(
            scoped@,
            piece_id@,
            orientations_named(piece_id@, ORIENTATION_COUNT as int).len(),
        ),
        extends(moves_view(*old(moves)), moves_view(*final(moves))),
        forall|i: int|
            0 <= i < final(moves)@.len() ==> legal_placement(
                scoped@,
                #[trigger] moves_view(*final(moves))[i],
            ),
        forall|m: MoveModel|
            #[trigger] legal_placement(scoped@, m) && m->Place_piece_id == piece_id@ ==> moves_view(
                *final(moves),
            ).contains(m),
        forall|i: int|
            old(moves)@.len() <= i < final(moves)@.len() ==> of_piece(
                #[trigger] moves_view(*final(moves))[i],
                piece_id@,
            ),
        moves_view(*old(moves)).no_duplicates() && (forall|i: int|
            0 <= i < old(moves)@.len() ==> !of_piece(#[trigger] moves_view(*old(moves))[i], piece_id@))
            ==> moves_view(*final(moves)).no_duplicates(),
{
    let ghost start = moves_view(*moves);
    let ghost fresh = start.no_duplicates() && (forall|i: int|
        0 <= i < start.len() ==> !of_piece(#[trigger] start[i], piece_id@));
    let os = get_orientations(piece_id.as_str());
    let ghost ids = orientations_named(piece_id@, ORIENTATION_COUNT as int);
    proof {
        lemma_orientations_named(piece_id@, ORIENTATION_COUNT as int);
    }
    let mut j: usize = 0;
    while j < os.len()
        invariant
            scoped.wf(),
            scoped.current_player == player,
            ids == orientations_named(piece_id@, ORIENTATION_COUNT as int),
            os@.len() == ids.len(),
            forall|i: int| 0 <= i < os@.len() ==> (#[trigger] os@[i])@ == orientation_model(ids[i]),
            forall|i: int| 0 <= i < ids.len() ==> 0 <= #[trigger] ids[i] < ORIENTATION_COUNT,
            j <= os@.len(),
            moves_view(*moves) == start + piece_placements(scoped@, piece_id@, j as nat),
            extends(start, moves_view(*moves)),
            forall|i: int| 0 <= i < moves@.len() ==> legal_placement(scoped@, #[trigger] moves_view(*moves)[i]),
            forall|m: MoveModel|
                #[trigger] legal_placement(scoped@, m) && m->Place_piece_id == piece_id@
                    && ids.take(j as int).contains(m->Place_orientation_global_id as int)
                    ==> moves_view(*moves).contains(m),
            forall|a: int, b: int| 0 <= a < b < ids.len() ==> ids[a] < ids[b],
            forall|i: int|
                start.len() <= i < moves@.len() ==> of_piece(#[trigger] moves_view(*moves)[i], piece_id@)
                    && ids.take(j as int).contains(moves_view(*moves)[i]->Place_orientation_global_id as int),
            fresh == (start.no_duplicates() && (forall|i: int|
                0 <= i < start.len() ==> !of_piece(#[trigger] start[i], piece_id@))),
            fresh ==> moves_view(*moves).no_duplicates(),
        decreases os@.len() - j,
    {
        let g = os[j].global_id;
        assert(g == ids[j as int]);
        let ghost before = moves_view(*moves);
        proof {
            if fresh {
                assert forall|i: int| 0 <= i < before.len() implies !of_orientation(
                    #[trigger] before[i],
                    piece_id@,
                    g as nat,
                ) by {
                    if i < start.len() {
                        assert(before[i] == start[i]);
                        assert(!of_piece(start[i], piece_id@));
                    } else {
                        let gi = before[i]->Place_orientation_global_id as int;
                        if ids.take(j as int).contains(gi) {
                            let a = choose|a: int| 0 <= a < j && #[trigger] ids.take(j as int)[a] == gi;
                            assert(ids[a] == gi);
                        }
                    }
                }
            }
        }
        collect_orientation(scoped, player, piece_id, g, moves);
        proof {
            assert(moves_view(*moves) =~= start + piece_placements(
                scoped@,
                piece_id@,
                (j + 1) as nat,
            ));
            assert forall|i: int|
                start.len() <= i < moves@.len() implies of_piece(#[trigger] moves_view(*moves)[i], piece_id@)
                    && ids.take(j + 1).contains(moves_view(*moves)[i]->Place_orientation_global_id as int) by {
                lemma_take_contains(ids, j as int, moves_view(*moves)[i]->Place_orientation_global_id as int);
                if i < before.len() {
                    assert(moves_view(*moves)[i] == before[i]);
                }
            }
            assert forall|m: MoveModel|
                #[trigger] legal_placement(scoped@, m) && m->Place_piece_id == piece_id@
                    && ids.take(j + 1).contains(m->Place_orientation_global_id as int)
                    implies moves_view(*moves).contains(m) by {
                lemma_take_contains(ids, j as int, m->Place_orientation_global_id as int);
                if ids.take(j as int).contains(m->Place_orientation_global_id as int) {
                    lemma_extends_contains(before, moves_view(*moves), m);
                }
            }
        }
        j = j + 1;
    }
    proof {
        assert(ids.take(ids.len() as int) =~= ids);
        assert forall|m: MoveModel|
            #[trigger] legal_placement(scoped@, m) && m->Place_piece_id == piece_id@
                implies moves_view(*moves).contains(m) by {
            lemma_legal_placement_shape(scoped@, m);
        }
    }
}

/// Every legal placement of `player` in `state`, as if it were their turn:
/// pieces in the order of their remaining list, then orientations by global
/// id, then rows, then columns.
pub fn generate_legal_placements_for_player(state: &State, player: usize) -> (r: Vec<Move>)
    requires
        state.status == GameStatus::Playing ==> player < 2,
    ensures
        forall|i: int|
            0 <= i < r@.len() ==> legal_placement(
                with_player(state@, player as nat),
                #[trigger] moves_view(r)[i],
            ),
        forall|m: MoveModel|
            legal_placement(with_player(state@, player as nat), m) ==> #[trigger] moves_view(
                r,
            ).contains(m),
        state@.remaining_pieces[player as int].no_duplicates() ==> moves_view(r).no_duplicates(),
        moves_view(r) == placements_in_order(state@, player as nat),
{
    let ghost s = with_player(state@, player as nat);
    if state.status != GameStatus::Playing {
        let r: Vec<Move> = Vec::new();
        proof {
            assert(moves_view(r) =~= Seq::<MoveModel>::empty());
            assert forall|m: MoveModel| legal_placement(s, m) implies #[trigger] moves_view(r).contains(m) by {
                lemma_legal_placement_shape(s, m);
            }
        }
        return r;
    }
    let mut scoped = state.clone();
    scoped.current_player = player;
    assert(scoped@ == s);
    let mut moves: Vec<Move> = Vec::new();
    assert(moves_view(moves) =~= Seq::<MoveModel>::empty());
    let ghost rem = names(scoped.remaining_pieces[player as int]);
    assert(rem == s.remaining_pieces[player as int]);
    let mut k: usize = 0;
    while k < scoped.remaining_pieces[player].len()
        invariant
            scoped.wf(),
            scoped@ == s,
            scoped.current_player == player,
            rem == names(scoped.remaining_pieces[player as int]),
            k <= rem.len(),
            moves_view(moves) == hand_placements(s, rem, k as nat),
            forall|i: int| 0 <= i < moves@.len() ==> legal_placement(s, #[trigger] moves_view(moves)[i]),
            forall|m: MoveModel|
                #[trigger] legal_placement(s, m) && rem.take(k as int).contains(m->Place_piece_id)
                    ==> moves_view(moves).contains(m),
            forall|i: int|
                0 <= i < moves@.len() ==> (#[trigger] moves_view(moves)[i]) is Place && rem.take(
                    k as int,
                ).contains(moves_view(moves)[i]->Place_piece_id),
            rem.no_duplicates() ==> moves_view(moves).no_duplicates(),
        decreases rem.len() - k,
    {
        let ghost before = moves_view(moves);
        proof {
            if rem.no_duplicates() {
                assert forall|i: int| 0 <= i < before.len() implies !of_piece(
                    #[trigger] before[i],
                    rem[k as int],
                ) by {
                    let piece = before[i]->Place_piece_id;
                    let a = choose|a: int| 0 <= a < k && #[trigger] rem.take(k as int)[a] == piece;
                    assert(rem[a] == piece);
                }
            }
        }
        collect_piece(&scoped, player, &scoped.remaining_pieces[player][k], &mut moves);
        proof {
            assert(moves_view(moves) =~= hand_placements(s, rem, (k + 1) as nat));
            assert forall|i: int|
                0 <= i < moves@.len() implies (#[trigger] moves_view(moves)[i]) is Place && rem.take(
                    k + 1,
                ).contains(moves_view(moves)[i]->Place_piece_id) by {
                lemma_take_contains(rem, k as int, moves_view(moves)[i]->Place_piece_id);
                if i < before.len() {
                    assert(moves_view(moves)[i] == before[i]);
                }
            }
            assert forall|m: MoveModel|
                #[trigger] legal_placement(s, m) && rem.take(k + 1).contains(m->Place_piece_id)
                    implies moves_view(moves).contains(m) by {
                lemma_take_contains(rem, k as int, m->Place_piece_id);
                if rem.take(k as int).contains(m->Place_piece_id) {
                    lemma_extends_contains(before, moves_view(moves), m);
                }
            }
        }
        k = k + 1;
    }
    proof {
        assert(rem.take(rem.len() as int) =~= rem);
        assert forall|m: MoveModel| legal_placement(s, m) implies #[trigger] moves_view(moves).contains(
            m,
        ) by {
            lemma_legal_placement_shape(s, m);
        }
    }
    moves
}

} // verus!
