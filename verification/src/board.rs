//! The 8x8 board and its mathematical model.

use crate::color::Color;
use vstd::prelude::*;

verus! {

/// Denotes a position indexed by column and row on the board.
pub type Coord = (i8, i8);

/// Enumerates all possible flip directions on the board.
///
/// The first element of the product denotes delta in column index, the second delta in row index.
pub const DIRECTIONS: [Coord; 8] = [
    (0, 1),
    (1, 1),
    (1, 0),
    (1, -1),
    (0, -1),
    (-1, -1),
    (-1, 0),
    (-1, 1),
];

/// The model of a board: eight columns of eight cells each.
pub type Cells = Seq<Seq<Option<Color>>>;

/// Whether column `x`, row `y` names a cell of the board.
pub open spec fn on_board(x: int, y: int) -> bool {
    0 <= x < 8 && 0 <= y < 8
}

/// The starting constellation: the four central cells are occupied, the
/// two diagonals by one color each.
pub open spec fn opening() -> Cells {
    Seq::new(
        8,
        |x: int|
            Seq::new(
                8,
                |y: int|
                    if (x == 3 && y == 3) || (x == 4 && y == 4) {
                        Some(Color::Black)
                    } else if (x == 3 && y == 4) || (x == 4 && y == 3) {
                        Some(Color::White)
                    } else {
                        None
                    },
            ),
    )
}

/// Whether `position` names a cell of the board: the bounds check for
/// coordinates that come from outside.
pub fn is_on_board(position: Coord) -> (inside: bool)
    ensures
        inside == on_board(position.0 as int, position.1 as int),
{
    0 <= position.0 && position.0 < 8 && 0 <= position.1 && position.1 < 8
}

/// An 8x8 matrix of cells holding disks.
///
/// It represents a constellation of pieces. If and only if two boards have
/// the same constellation, are they considered equal.
#[derive(Debug)]
pub struct Board {
    pub cells: [[Option<Color>; 8]; 8],
}

impl View for Board {
    type V = Cells;

    open spec fn view(&self) -> Cells {
        Seq::new(8, |x: int| Seq::new(8, |y: int| self.cells[x][y]))
    }
}

impl Board {
    /// Creates a board for the starting constellation.
    pub fn new() -> (board: Board)
        ensures
            board@ == opening(),
    {
        let mut cells = [[None; 8]; 8];
        cells[3][3] = Some(Color::Black);
        cells[3][4] = Some(Color::White);
        cells[4][3] = Some(Color::White);
        cells[4][4] = Some(Color::Black);
        let board = Board { cells: cells };
        assert(board@ =~~= opening());
        board
    }
}

impl PartialEq for Board {
    /// Two boards are equal if and only if they have the same constellation.
    fn eq(&self, other: &Board) -> (equal: bool) {
        let mut x: usize = 0;
        while x < 8
            invariant
                0 <= x <= 8,
                forall|cx: int, cy: int|
                    0 <= cx < x && 0 <= cy < 8 ==> self@[cx][cy] == other@[cx][cy],
            decreases 8 - x,
        {
            let mut y: usize = 0;
            while y < 8
                invariant
                    0 <= x < 8,
                    0 <= y <= 8,
                    forall|cy: int| 0 <= cy < y ==> self@[x as int][cy] == other@[x as int][cy],
                decreases 8 - y,
            {
                if !same_content(self.cells[x][y], other.cells[x][y]) {
                    assert(self@[x as int][y as int] != other@[x as int][y as int]);
                    return false;
                }
                y += 1;
            }
            x += 1;
        }
        assert(self@ =~~= other@);
        true
    }
}

impl vstd::std_specs::cmp::PartialEqSpecImpl for Board {
    open spec fn obeys_eq_spec() -> bool {
        true
    }

    open spec fn eq_spec(&self, other: &Board) -> bool {
        self@ == other@
    }
}

/// Whether two cells hold the same: both nothing, or pieces of one color.
fn same_content(a: Option<Color>, b: Option<Color>) -> (same: bool)
    ensures
        same == (a == b),
{
    match (a, b) {
        (None, None) => true,
        (Some(c), Some(d)) => c == d,
        _ => false,
    }
}

/// A board is nothing but its constellation: boards with the same cell
/// contents are the same value, however they came about.
pub proof fn lemma_board_is_its_cells(a: Board, b: Board)
    ensures
        a@ == b@ <==> a == b,
        a@.len() == 8,
        forall|x: int| 0 <= x < 8 ==> (#[trigger] a@[x]).len() == 8,
{
    if a@ == b@ {
        assert forall|x: int| 0 <= x < 8 implies a.cells[x] == b.cells[x] by {
            assert forall|y: int| 0 <= y < 8 implies a.cells[x][y] == b.cells[x][y] by {
                assert(a@[x][y] == b@[x][y]);
            }
            assert(a.cells[x] =~= b.cells[x]);
        }
        assert(a.cells =~= b.cells);
    }
}

} // verus!
