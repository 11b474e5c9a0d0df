//! Orientations as values: lookup by global id and by piece, and piece sizes.
use vstd::prelude::*;
use crate::table::{
    lemma_table_facts, orientation_cell, orientation_cells, orientation_name, orientation_size,
    piece_name, ORIENTATION_CELLS, ORIENTATION_COUNT, ORIENTATION_HEIGHT, ORIENTATION_LOCAL_ID,
    ORIENTATION_PIECE, ORIENTATION_SIZE, ORIENTATION_WIDTH, PIECE_COUNT, PIECE_IDS,
};

verus! {

/// One orientation of a piece, with its cells as `[dx, dy]` offsets.
#[derive(Debug, Clone)]
pub struct Orientation {
    pub piece_id: String,
    pub local_id: usize,
    pub global_id: usize,
    pub cells: Vec<[isize; 2]>,
    pub width: usize,
    pub height: usize,
    pub unit_squares: usize,
}

/// The mathematical content of an [`Orientation`].
pub struct OrientationModel {
    pub piece_id: Seq<char>,
    pub local_id: nat,
    pub global_id: nat,
    pub cells: Seq<(int, int)>,
    pub width: nat,
    pub height: nat,
    pub unit_squares: nat,
}

pub open spec fn cell_pair(c: [isize; 2]) -> (int, int) {
    (c[0] as int, c[1] as int)
}

impl View for Orientation {
    type V = OrientationModel;

    open spec fn view(&self) -> OrientationModel {
        OrientationModel {
            piece_id: self.piece_id@,
            local_id: self.local_id as nat,
            global_id: self.global_id as nat,
            cells: self.cells@.map_values(|c: [isize; 2]| cell_pair(c)),
            width: self.width as nat,
            height: self.height as nat,
            unit_squares: self.unit_squares as nat,
        }
    }
}

/// Orientation `g` of the table as a model.
pub open spec fn orientation_model(g: int) -> OrientationModel {
    OrientationModel {
        piece_id: orientation_name(g),
        local_id: ORIENTATION_LOCAL_ID@[g] as nat,
        global_id: g as nat,
        cells: orientation_cells(g),
        width: ORIENTATION_WIDTH@[g] as nat,
        height: ORIENTATION_HEIGHT@[g] as nat,
        unit_squares: orientation_size(g) as nat,
    }
}

/// The global ids below `n` whose orientation belongs to the piece named `name`, ascending.
pub open spec fn orientations_named(name: Seq<char>, n: int) -> Seq<int>
    decreases n,
{
    if n <= 0 {
        Seq::empty()
    } else if orientation_name(n - 1) == name {
        orientations_named(name, n - 1).push(n - 1)
    } else {
        orientations_named(name, n - 1)
    }
}

/// The unit squares of the piece named `name`, read from its first
/// orientation; 0 when no orientation has that name.
pub open spec fn piece_size_of(name: Seq<char>) -> nat {
    let ids = orientations_named(name, ORIENTATION_COUNT as int);
    if ids.len() > 0 {
        orientation_size(ids[0]) as nat
    } else {
        0
    }
}

pub proof fn lemma_orientations_named(name: Seq<char>, n: int)
    requires
        0 <= n,
    ensures
        forall|i: int|
            0 <= i < orientations_named(name, n).len() ==> {
                &&& 0 <= #[trigger] orientations_named(name, n)[i] < n
                &&& orientation_name(orientations_named(name, n)[i]) == name
            },
        forall|g: int|
            0 <= g < n && orientation_name(g) == name ==> #[trigger] orientations_named(
                name,
                n,
            ).contains(g),
        forall|i: int, j: int|
            0 <= i < j < orientations_named(name, n).len() ==> orientations_named(name, n)[i]
                < orientations_named(name, n)[j],
    decreases n,
{
    if n > 0 {
        lemma_orientations_named(name, n - 1);
        let prev = orientations_named(name, n - 1);
        if orientation_name(n - 1) == name {
            assert forall|g: int| 0 <= g < n && orientation_name(g) == name implies #[trigger] orientations_named(
                name,
                n,
            ).contains(g) by {
                if g == n - 1 {
                    assert(orientations_named(name, n)[prev.len() as int] == g);
                } else {
                    assert(prev.contains(g));
                    let k = choose|k: int| 0 <= k < prev.len() && prev[k] == g;
                    assert(orientations_named(name, n)[k] == g);
                }
            }
        }
    }
}

/// `orientations_named(name, m)` is a prefix of `orientations_named(name, n)` for `m <= n`.
pub proof fn lemma_orientations_named_prefix(name: Seq<char>, m: int, n: int)
    requires
        0 <= m <= n,
    ensures
        orientations_named(name, m).len() <= orientations_named(name, n).len(),
        forall|i: int|
            0 <= i < orientations_named(name, m).len() ==> #[trigger] orientations_named(
                name,
                m,
            )[i] == orientations_named(name, n)[i],
    decreases n - m,
{
    if m < n {
        lemma_orientations_named_prefix(name, m, n - 1);
    }
}

/// The name of piece `piece` as a `String`.
pub fn piece_id_string(piece: usize) -> (s: String)
    requires
        piece < PIECE_COUNT,
    ensures
        s@ == piece_name(piece as int),
{
    reveal(piece_name);
    PIECE_IDS[piece].to_owned()
}

/// The name of the piece that orientation `g` belongs to.
fn orientation_piece_id(g: usize) -> (s: String)
    requires
        g < ORIENTATION_COUNT,
    ensures
        s@ == orientation_name(g as int),
{
    proof {
        lemma_table_facts();
    }
    piece_id_string(ORIENTATION_PIECE[g] as usize)
}

/// Builds orientation `g` of the table.
fn orientation_at(g: usize) -> (o: Orientation)
    requires
        g < ORIENTATION_COUNT,
    ensures
        o@ == orientation_model(g as int),
{
    proof {
        lemma_table_facts();
    }
    let size = ORIENTATION_SIZE[g] as usize;
    let row = ORIENTATION_CELLS[g];
    let mut cells: Vec<[isize; 2]> = Vec::new();
    let mut i: usize = 0;
    while i < size
        invariant
            size == orientation_size(g as int),
            size <= 5,
            row == ORIENTATION_CELLS@[g as int],
            i <= size,
            cells@.len() == i,
            forall|k: int| 0 <= k < i ==> cell_pair(#[trigger] cells@[k]) == orientation_cell(g as int, k),
        decreases size - i,
    {
        let c: [isize; 2] = [row[2 * i] as isize, row[2 * i + 1] as isize];
        cells.push(c);
        i = i + 1;
    }
    let o = Orientation {
        piece_id: orientation_piece_id(g),
        local_id: ORIENTATION_LOCAL_ID[g] as usize,
        global_id: g,
        cells,
        width: ORIENTATION_WIDTH[g] as usize,
        height: ORIENTATION_HEIGHT[g] as usize,
        unit_squares: size,
    };
    assert(o@.cells =~= orientation_cells(g as int));
    o
}

/// Every orientation of every piece, indexed by global id.
pub fn orientations() -> (r: Vec<Orientation>)
    ensures
        r@.len() == ORIENTATION_COUNT,
        forall|g: int| 0 <= g < ORIENTATION_COUNT ==> (#[trigger] r@[g])@ == orientation_model(g),
{
    let mut r: Vec<Orientation> = Vec::new();
    let mut g: usize = 0;
    while g < ORIENTATION_COUNT
        invariant
            g <= ORIENTATION_COUNT,
            r@.len() == g,
            forall|k: int| 0 <= k < g ==> (#[trigger] r@[k])@ == orientation_model(k),
        decreases ORIENTATION_COUNT - g,
    {
        r.push(orientation_at(g));
        g = g + 1;
    }
    r
}

/// The number of orientations in the table.
pub fn orientation_count() -> (r: usize)
    ensures
        r == ORIENTATION_COUNT,
{
    orientations().len()
}

/// The orientation with the given global id, if there is one.
pub fn get_orientation(global_id: usize) -> (r: Option<Orientation>)
    ensures
        r is Some <==> global_id < ORIENTATION_COUNT,
        r matches Some(o) ==> o@ == orientation_model(global_id as int),
{
    if global_id < ORIENTATION_COUNT {
        Some(orientation_at(global_id))
    } else {
        None
    }
}

/// All orientations of the piece named `piece_id`, by ascending global id.
pub fn get_orientations(piece_id: &str) -> (r: Vec<Orientation>)
    ensures
        r@.len() == orientations_named(piece_id@, ORIENTATION_COUNT as int).len(),
        forall|i: int|
            0 <= i < r@.len() ==> (#[trigger] r@[i])@ == orientation_model(
                orientations_named(piece_id@, ORIENTATION_COUNT as int)[i],
            ),
{
    let key = piece_id.to_owned();
    let mut r: Vec<Orientation> = Vec::new();
    let mut g: usize = 0;
    while g < ORIENTATION_COUNT
        invariant
            key@ == piece_id@,
            g <= ORIENTATION_COUNT,
            r@.len() == orientations_named(piece_id@, g as int).len(),
            forall|i: int|
                0 <= i < r@.len() ==> (#[trigger] r@[i])@ == orientation_model(
                    orientations_named(piece_id@, g as int)[i],
                ),
        decreases ORIENTATION_COUNT - g,
    {
        if orientation_piece_id(g) == key {
            r.push(orientation_at(g));
        }
        g = g + 1;
    }
    r
}

/// The number of unit squares of the piece named `piece_id`, or 0 for an unknown name.
pub fn piece_size(piece_id: &str) -> (r: usize)
    ensures
        r == piece_size_of(piece_id@),
{
    let key = piece_id.to_owned();
    let mut g: usize = 0;
    while g < ORIENTATION_COUNT
        invariant
            key@ == piece_id@,
            g <= ORIENTATION_COUNT,
            orientations_named(piece_id@, g as int).len() == 0,
        decreases ORIENTATION_COUNT - g,
    {
        if orientation_piece_id(g) == key {
            proof {
                lemma_table_facts();
                lemma_orientations_named_prefix(piece_id@, g + 1, ORIENTATION_COUNT as int);
                assert(orientations_named(piece_id@, g + 1)[0] == g);
            }
            return ORIENTATION_SIZE[g] as usize;
        }
        g = g + 1;
    }
    0
}

} // verus!
