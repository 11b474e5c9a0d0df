//! The orientation table of the 21 Blokus Duo pieces.
//!
//! Every piece appears with each of its distinct rotations and reflections.
//! Orientation `g` (its global id) belongs to piece `ORIENTATION_PIECE[g]`
//! (an index into `PIECE_IDS`), has `ORIENTATION_SIZE[g]` unit squares and
//! covers the cells `(ORIENTATION_CELLS[g][2 * i], ORIENTATION_CELLS[g][2 * i + 1])`
//! for `i < ORIENTATION_SIZE[g]`, normalised so that the smallest x and the
//! smallest y are both 0. Orientations of one piece are consecutive and
//! pieces come in the order of `PIECE_IDS`.
use vstd::prelude::*;

verus! {

pub const BOARD_SIZE: usize = 14;

pub const BOARD_CELLS: usize = BOARD_SIZE * BOARD_SIZE;

pub const EMPTY: i8 = -1;

pub const STATE_PLANES: usize = 51;

pub const ORIENTATION_COUNT: usize = 91;

pub const PASS_ACTION: usize = ORIENTATION_COUNT * BOARD_CELLS;

pub const ACTION_SIZE: usize = PASS_ACTION + 1;

pub const PIECE_COUNT: usize = 21;

pub const PIECE_IDS: [&'static str; 21] = [
    "I1", "I2", "I3", "V3", "I4", "O4", "T4", "L4", "Z4", "F5", "I5", "L5", "P5", "T5", "U5", "V5",
    "W5", "X5", "Y5", "Z5", "N5",
];

pub const ORIENTATION_PIECE: [u8; 91] = [
    0, 1, 1, 2, 2, 3, 3, 3, 3, 4, 4, 5, 6, 6, 6, 6,
    7, 7, 7, 7, 7, 7, 7, 7, 8, 8, 8, 8, 9, 9, 9, 9,
    9, 9, 9, 9, 10, 10, 11, 11, 11, 11, 11, 11, 11, 11, 12, 12,
    12, 12, 12, 12, 12, 12, 13, 13, 13, 13, 14, 14, 14, 14, 15, 15,
    15, 15, 16, 16, 16, 16, 17, 18, 18, 18, 18, 18, 18, 18, 18, 19,
    19, 19, 19, 20, 20, 20, 20, 20, 20, 20, 20,
];

pub const ORIENTATION_LOCAL_ID: [u8; 91] = [
    0, 0, 1, 0, 1, 0, 1, 2, 3, 0, 1, 0, 0, 1, 2, 3,
    0, 1, 2, 3, 4, 5, 6, 7, 0, 1, 2, 3, 0, 1, 2, 3,
    4, 5, 6, 7, 0, 1, 0, 1, 2, 3, 4, 5, 6, 7, 0, 1,
    2, 3, 4, 5, 6, 7, 0, 1, 2, 3, 0, 1, 2, 3, 0, 1,
    2, 3, 0, 1, 2, 3, 0, 0, 1, 2, 3, 4, 5, 6, 7, 0,
    1, 2, 3, 0, 1, 2, 3, 4, 5, 6, 7,
];

pub const ORIENTATION_WIDTH: [u8; 91] = [
    1, 2, 1, 3, 1, 2, 2, 2, 2, 4, 1, 2, 3, 2, 3, 2,
    2, 3, 2, 3, 2, 3, 2, 3, 3, 2, 3, 2, 3, 3, 3, 3,
    3, 3, 3, 3, 5, 1, 2, 4, 2, 4, 2, 4, 2, 4, 2, 3,
    2, 3, 2, 3, 2, 3, 3, 3, 3, 3, 3, 2, 3, 2, 3, 3,
    3, 3, 3, 3, 3, 3, 3, 2, 4, 2, 4, 2, 4, 2, 4, 3,
    3, 3, 3, 2, 4, 2, 4, 2, 4, 2, 4,
];

pub const ORIENTATION_HEIGHT: [u8; 91] = [
    1, 1, 2, 1, 3, 2, 2, 2, 2, 1, 4, 2, 2, 3, 2, 3,
    3, 2, 3, 2, 3, 2, 3, 2, 2, 3, 2, 3, 3, 3, 3, 3,
    3, 3, 3, 3, 1, 5, 4, 2, 4, 2, 4, 2, 4, 2, 3, 2,
    3, 2, 3, 2, 3, 2, 3, 3, 3, 3, 2, 3, 2, 3, 3, 3,
    3, 3, 3, 3, 3, 3, 3, 4, 2, 4, 2, 4, 2, 4, 2, 3,
    3, 3, 3, 4, 2, 4, 2, 4, 2, 4, 2,
];

pub const ORIENTATION_SIZE: [u8; 91] = [
    1, 2, 2, 3, 3, 3, 3, 3, 3, 4, 4, 4, 4, 4, 4, 4,
    4, 4, 4, 4, 4, 4, 4, 4, 4, 4, 4, 4, 5, 5, 5, 5,
    5, 5, 5, 5, 5, 5, 5, 5, 5, 5, 5, 5, 5, 5, 5, 5,
    5, 5, 5, 5, 5, 5, 5, 5, 5, 5, 5, 5, 5, 5, 5, 5,
    5, 5, 5, 5, 5, 5, 5, 5, 5, 5, 5, 5, 5, 5, 5, 5,
    5, 5, 5, 5, 5, 5, 5, 5, 5, 5, 5,
];

pub const ORIENTATION_CELLS: [[i8; 10]; 91] = [
    [0, 0, 0, 0, 0, 0, 0, 0, 0, 0], // 0 I1/0
    [0, 0, 1, 0, 0, 0, 0, 0, 0, 0], // 1 I2/0
    [0, 0, 0, 1, 0, 0, 0, 0, 0, 0], // 2 I2/1
    [0, 0, 1, 0, 2, 0, 0, 0, 0, 0], // 3 I3/0
    [0, 0, 0, 1, 0, 2, 0, 0, 0, 0], // 4 I3/1
    [0, 0, 0, 1, 1, 1, 0, 0, 0, 0], // 5 V3/0
    [0, 0, 1, 0, 0, 1, 0, 0, 0, 0], // 6 V3/1
    [0, 0, 1, 0, 1, 1, 0, 0, 0, 0], // 7 V3/2
    [1, 0, 0, 1, 1, 1, 0, 0, 0, 0], // 8 V3/3
    [0, 0, 1, 0, 2, 0, 3, 0, 0, 0], // 9 I4/0
    [0, 0, 0, 1, 0, 2, 0, 3, 0, 0], // 10 I4/1
    [0, 0, 1, 0, 0, 1, 1, 1, 0, 0], // 11 O4/0
    [0, 0, 1, 0, 2, 0, 1, 1, 0, 0], // 12 T4/0
    [1, 0, 0, 1, 1, 1, 1, 2, 0, 0], // 13 T4/1
    [1, 0, 0, 1, 1, 1, 2, 1, 0, 0], // 14 T4/2
    [0, 0, 0, 1, 1, 1, 0, 2, 0, 0], // 15 T4/3
    [0, 0, 0, 1, 0, 2, 1, 2, 0, 0], // 16 L4/0
    [0, 0, 1, 0, 2, 0, 0, 1, 0, 0], // 17 L4/1
    [0, 0, 1, 0, 1, 1, 1, 2, 0, 0], // 18 L4/2
    [2, 0, 0, 1, 1, 1, 2, 1, 0, 0], // 19 L4/3
    [1, 0, 1, 1, 0, 2, 1, 2, 0, 0], // 20 L4/4
    [0, 0, 0, 1, 1, 1, 2, 1, 0, 0], // 21 L4/5
    [0, 0, 1, 0, 0, 1, 0, 2, 0, 0], // 22 L4/6
    [0, 0, 1, 0, 2, 0, 2, 1, 0, 0], // 23 L4/7
    [0, 0, 1, 0, 1, 1, 2, 1, 0, 0], // 24 Z4/0
    [1, 0, 0, 1, 1, 1, 0, 2, 0, 0], // 25 Z4/1
    [1, 0, 2, 0, 0, 1, 1, 1, 0, 0], // 26 Z4/2
    [0, 0, 0, 1, 1, 1, 1, 2, 0, 0], // 27 Z4/3
    [1, 0, 2, 0, 0, 1, 1, 1, 1, 2], // 28 F5/0
    [1, 0, 0, 1, 1, 1, 2, 1, 2, 2], // 29 F5/1
    [1, 0, 1, 1, 2, 1, 0, 2, 1, 2], // 30 F5/2
    [0, 0, 0, 1, 1, 1, 2, 1, 1, 2], // 31 F5/3
    [0, 0, 1, 0, 1, 1, 2, 1, 1, 2], // 32 F5/4
    [2, 0, 0, 1, 1, 1, 2, 1, 1, 2], // 33 F5/5
    [1, 0, 0, 1, 1, 1, 1, 2, 2, 2], // 34 F5/6
    [1, 0, 0, 1, 1, 1, 2, 1, 0, 2], // 35 F5/7
    [0, 0, 1, 0, 2, 0, 3, 0, 4, 0], // 36 I5/0
    [0, 0, 0, 1, 0, 2, 0, 3, 0, 4], // 37 I5/1
    [0, 0, 0, 1, 0, 2, 0, 3, 1, 3], // 38 L5/0
    [0, 0, 1, 0, 2, 0, 3, 0, 0, 1], // 39 L5/1
    [0, 0, 1, 0, 1, 1, 1, 2, 1, 3], // 40 L5/2
    [3, 0, 0, 1, 1, 1, 2, 1, 3, 1], // 41 L5/3
    [1, 0, 1, 1, 1, 2, 0, 3, 1, 3], // 42 L5/4
    [0, 0, 0, 1, 1, 1, 2, 1, 3, 1], // 43 L5/5
    [0, 0, 1, 0, 0, 1, 0, 2, 0, 3], // 44 L5/6
    [0, 0, 1, 0, 2, 0, 3, 0, 3, 1], // 45 L5/7
    [0, 0, 1, 0, 0, 1, 1, 1, 0, 2], // 46 P5/0
    [0, 0, 1, 0, 2, 0, 1, 1, 2, 1], // 47 P5/1
    [1, 0, 0, 1, 1, 1, 0, 2, 1, 2], // 48 P5/2
    [0, 0, 1, 0, 0, 1, 1, 1, 2, 1], // 49 P5/3
    [0, 0, 1, 0, 0, 1, 1, 1, 1, 2], // 50 P5/4
    [1, 0, 2, 0, 0, 1, 1, 1, 2, 1], // 51 P5/5
    [0, 0, 0, 1, 1, 1, 0, 2, 1, 2], // 52 P5/6
    [0, 0, 1, 0, 2, 0, 0, 1, 1, 1], // 53 P5/7
    [0, 0, 1, 0, 2, 0, 1, 1, 1, 2], // 54 T5/0
    [2, 0, 0, 1, 1, 1, 2, 1, 2, 2], // 55 T5/1
    [1, 0, 1, 1, 0, 2, 1, 2, 2, 2], // 56 T5/2
    [0, 0, 0, 1, 1, 1, 2, 1, 0, 2], // 57 T5/3
    [0, 0, 2, 0, 0, 1, 1, 1, 2, 1], // 58 U5/0
    [0, 0, 1, 0, 0, 1, 0, 2, 1, 2], // 59 U5/1
    [0, 0, 1, 0, 2, 0, 0, 1, 2, 1], // 60 U5/2
    [0, 0, 1, 0, 1, 1, 0, 2, 1, 2], // 61 U5/3
    [0, 0, 0, 1, 0, 2, 1, 2, 2, 2], // 62 V5/0
    [0, 0, 1, 0, 2, 0, 0, 1, 0, 2], // 63 V5/1
    [0, 0, 1, 0, 2, 0, 2, 1, 2, 2], // 64 V5/2
    [2, 0, 2, 1, 0, 2, 1, 2, 2, 2], // 65 V5/3
    [0, 0, 0, 1, 1, 1, 1, 2, 2, 2], // 66 W5/0
    [1, 0, 2, 0, 0, 1, 1, 1, 0, 2], // 67 W5/1
    [0, 0, 1, 0, 1, 1, 2, 1, 2, 2], // 68 W5/2
    [2, 0, 1, 1, 2, 1, 0, 2, 1, 2], // 69 W5/3
    [1, 0, 0, 1, 1, 1, 2, 1, 1, 2], // 70 X5/0
    [1, 0, 0, 1, 1, 1, 1, 2, 1, 3], // 71 Y5/0
    [2, 0, 0, 1, 1, 1, 2, 1, 3, 1], // 72 Y5/1
    [0, 0, 0, 1, 0, 2, 1, 2, 0, 3], // 73 Y5/2
    [0, 0, 1, 0, 2, 0, 3, 0, 1, 1], // 74 Y5/3
    [0, 0, 0, 1, 1, 1, 0, 2, 0, 3], // 75 Y5/4
    [0, 0, 1, 0, 2, 0, 3, 0, 2, 1], // 76 Y5/5
    [1, 0, 1, 1, 0, 2, 1, 2, 1, 3], // 77 Y5/6
    [1, 0, 0, 1, 1, 1, 2, 1, 3, 1], // 78 Y5/7
    [0, 0, 1, 0, 1, 1, 1, 2, 2, 2], // 79 Z5/0
    [2, 0, 0, 1, 1, 1, 2, 1, 0, 2], // 80 Z5/1
    [1, 0, 2, 0, 1, 1, 0, 2, 1, 2], // 81 Z5/2
    [0, 0, 0, 1, 1, 1, 2, 1, 2, 2], // 82 Z5/3
    [1, 0, 1, 1, 0, 2, 1, 2, 0, 3], // 83 N5/0
    [0, 0, 1, 0, 1, 1, 2, 1, 3, 1], // 84 N5/1
    [1, 0, 0, 1, 1, 1, 0, 2, 0, 3], // 85 N5/2
    [0, 0, 1, 0, 2, 0, 2, 1, 3, 1], // 86 N5/3
    [0, 0, 0, 1, 0, 2, 1, 2, 1, 3], // 87 N5/4
    [1, 0, 2, 0, 3, 0, 0, 1, 1, 1], // 88 N5/5
    [0, 0, 0, 1, 1, 1, 1, 2, 1, 3], // 89 N5/6
    [2, 0, 3, 0, 0, 1, 1, 1, 2, 1], // 90 N5/7
];

/// The name of piece `i`.
#[verifier::opaque]
pub open spec fn piece_name(i: int) -> Seq<char> {
    PIECE_IDS@[i]@
}

/// The pieces have pairwise different names.
pub proof fn lemma_piece_names_distinct()
    ensures
        forall|i: int, j: int|
            0 <= i < PIECE_COUNT && 0 <= j < PIECE_COUNT && i != j ==> #[trigger] piece_name(i)
                != #[trigger] piece_name(j),
{
    reveal(piece_name);
    assert forall|i: int, j: int|
        0 <= i < PIECE_COUNT && 0 <= j < PIECE_COUNT && i != j implies #[trigger] piece_name(i)
            != #[trigger] piece_name(j) by {
        reveal_strlit("I1");
        reveal_strlit("I2");
        reveal_strlit("I3");
        reveal_strlit("V3");
        reveal_strlit("I4");
        reveal_strlit("O4");
        reveal_strlit("T4");
        reveal_strlit("L4");
        reveal_strlit("Z4");
        reveal_strlit("F5");
        reveal_strlit("I5");
        reveal_strlit("L5");
        reveal_strlit("P5");
        reveal_strlit("T5");
        reveal_strlit("U5");
        reveal_strlit("V5");
        reveal_strlit("W5");
        reveal_strlit("X5");
        reveal_strlit("Y5");
        reveal_strlit("Z5");
        reveal_strlit("N5");
        assert(PIECE_IDS@[i] == PIECE_IDS[i]);
        assert(PIECE_IDS@[j] == PIECE_IDS[j]);
        assert(piece_name(i)[0] != piece_name(j)[0] || piece_name(i)[1] != piece_name(j)[1]);
    }
}

/// The piece index of orientation `g`.
pub open spec fn orientation_piece(g: int) -> int {
    ORIENTATION_PIECE@[g] as int
}

/// The number of unit squares of orientation `g`.
pub open spec fn orientation_size(g: int) -> int {
    ORIENTATION_SIZE@[g] as int
}

/// The `i`-th cell `(dx, dy)` of orientation `g`.
pub open spec fn orientation_cell(g: int, i: int) -> (int, int) {
    (ORIENTATION_CELLS@[g]@[2 * i] as int, ORIENTATION_CELLS@[g]@[2 * i + 1] as int)
}

/// All cells of orientation `g`, in table order.
pub open spec fn orientation_cells(g: int) -> Seq<(int, int)> {
    Seq::new(orientation_size(g) as nat, |i: int| orientation_cell(g, i))
}

/// The name of the piece that orientation `g` belongs to.
pub open spec fn orientation_name(g: int) -> Seq<char> {
    piece_name(orientation_piece(g))
}

/// Some cell of orientation `g` lies in column 0 and some cell lies in row 0.
pub open spec fn touches_box_origin_edges(g: int) -> bool {
    &&& exists|i: int| 0 <= i < orientation_size(g) && (#[trigger] orientation_cell(g, i)).0 == 0
    &&& exists|i: int| 0 <= i < orientation_size(g) && (#[trigger] orientation_cell(g, i)).1 == 0
}

/// Facts about the table that the rules rely on: every orientation names a
/// piece, has one to five cells, all of them at non-negative offsets inside
/// its width and height, and touches the left and the top edge of its box.
pub proof fn lemma_table_facts()
    ensures
        forall|g: int|
            0 <= g < ORIENTATION_COUNT ==> {
                &&& 0 <= #[trigger] orientation_piece(g) < PIECE_COUNT
                &&& 1 <= orientation_size(g) <= 5
                &&& 1 <= ORIENTATION_WIDTH@[g] <= 5
                &&& 1 <= ORIENTATION_HEIGHT@[g] <= 5
            },
        forall|g: int, i: int|
            0 <= g < ORIENTATION_COUNT && 0 <= i < orientation_size(g) ==> {
                &&& 0 <= (#[trigger] orientation_cell(g, i)).0 < ORIENTATION_WIDTH@[g]
                &&& 0 <= orientation_cell(g, i).1 < ORIENTATION_HEIGHT@[g]
            },
        forall|g: int| 0 <= g < ORIENTATION_COUNT ==> #[trigger] touches_box_origin_edges(g),
{
    assert forall|g: int| 0 <= g < ORIENTATION_COUNT implies {
        &&& 0 <= #[trigger] orientation_piece(g) < PIECE_COUNT
        &&& 1 <= orientation_size(g) <= 5
        &&& 1 <= ORIENTATION_WIDTH@[g] <= 5
        &&& 1 <= ORIENTATION_HEIGHT@[g] <= 5
    } by {
        assert(ORIENTATION_PIECE@[g] == ORIENTATION_PIECE[g]);
        assert(ORIENTATION_SIZE@[g] == ORIENTATION_SIZE[g]);
        assert(ORIENTATION_WIDTH@[g] == ORIENTATION_WIDTH[g]);
        assert(ORIENTATION_HEIGHT@[g] == ORIENTATION_HEIGHT[g]);
    }
    assert forall|g: int, i: int|
        0 <= g < ORIENTATION_COUNT && 0 <= i < orientation_size(g) implies {
            &&& 0 <= (#[trigger] orientation_cell(g, i)).0 < ORIENTATION_WIDTH@[g]
            &&& 0 <= orientation_cell(g, i).1 < ORIENTATION_HEIGHT@[g]
        } by {
        assert(ORIENTATION_CELLS@[g] == ORIENTATION_CELLS[g]);
        assert(ORIENTATION_CELLS@[g]@[2 * i] == ORIENTATION_CELLS[g][2 * i]);
        assert(ORIENTATION_CELLS@[g]@[2 * i + 1] == ORIENTATION_CELLS[g][2 * i + 1]);
        assert(ORIENTATION_SIZE@[g] == ORIENTATION_SIZE[g]);
        assert(ORIENTATION_WIDTH@[g] == ORIENTATION_WIDTH[g]);
        assert(ORIENTATION_HEIGHT@[g] == ORIENTATION_HEIGHT[g]);
    }
    assert forall|g: int| 0 <= g < ORIENTATION_COUNT implies #[trigger] touches_box_origin_edges(g) by {
        assert(ORIENTATION_CELLS@[g] == ORIENTATION_CELLS[g]);
        assert(ORIENTATION_SIZE@[g] == ORIENTATION_SIZE[g]);
        assert(orientation_cell(g, 0).0 == 0 || (orientation_size(g) > 1 && orientation_cell(g, 1).0
            == 0) || (orientation_size(g) > 2 && orientation_cell(g, 2).0 == 0) || (
        orientation_size(g) > 3 && orientation_cell(g, 3).0 == 0));
        assert(orientation_cell(g, 0).1 == 0);
    }
}

/// The number of unit squares of piece `i`, by the order of `PIECE_IDS`:
/// one monomino, one domino, two trominoes, five tetrominoes, then pentominoes.
pub open spec fn piece_index_size(i: int) -> int {
    if i == 0 {
        1
    } else if i == 1 {
        2
    } else if i <= 3 {
        3
    } else if i <= 8 {
        4
    } else {
        5
    }
}

/// The cells of orientation `g` are pairwise different.
pub open spec fn cells_distinct(g: int) -> bool {
    forall|i: int, j: int|
        0 <= i < j < orientation_size(g) ==> #[trigger] orientation_cell(g, i) != #[trigger] orientation_cell(g, j)
}

/// Every orientation of a piece has as many unit squares as the piece, and
/// no orientation lists a cell twice.
pub proof fn lemma_orientation_shapes()
    ensures
        forall|g: int|
            0 <= g < ORIENTATION_COUNT ==> #[trigger] orientation_size(g) == piece_index_size(
                orientation_piece(g),
            ),
        forall|g: int| 0 <= g < ORIENTATION_COUNT ==> #[trigger] cells_distinct(g),
{
    assert forall|g: int| 0 <= g < ORIENTATION_COUNT implies #[trigger] orientation_size(g)
        == piece_index_size(orientation_piece(g)) by {
        assert(ORIENTATION_PIECE@[g] == ORIENTATION_PIECE[g]);
        assert(ORIENTATION_SIZE@[g] == ORIENTATION_SIZE[g]);
    }
    assert forall|g: int| 0 <= g < ORIENTATION_COUNT implies #[trigger] cells_distinct(g) by {
        assert(ORIENTATION_SIZE@[g] == ORIENTATION_SIZE[g]);
        assert(ORIENTATION_CELLS@[g] == ORIENTATION_CELLS[g]);
        let c = ORIENTATION_CELLS[g];
        assert forall|i: int, j: int| 0 <= i < j < orientation_size(g) implies #[trigger] orientation_cell(
            g,
            i,
        ) != #[trigger] orientation_cell(g, j) by {
            assert(c@[2 * i] == c[2 * i]);
            assert(c@[2 * i + 1] == c[2 * i + 1]);
            assert(c@[2 * j] == c[2 * j]);
            assert(c@[2 * j + 1] == c[2 * j + 1]);
        }
    }
}

} // verus!
