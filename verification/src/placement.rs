//! Playing a move: the captured lines change color, then the piece is set.

use crate::board::{is_on_board, on_board, Board, Cells, Coord, DIRECTIONS};
use crate::color::Color;
use crate::legality::{
    lemma_captures_on_board, total, verdict, IllegalMove, LegalMove, Placement,
};
use crate::ray::{delta, lemma_ray_between, lemma_ray_offset, lemma_ray_step, ray};
use crate::tally::{lemma_place_counts, occupied, pieces};
use vstd::prelude::*;

verus! {

/// Cell `(qx, qy)` is one of the first `n` cells behind `(x, y)` in
/// direction `d`.
pub open spec fn on_line(x: int, y: int, d: int, n: int, qx: int, qy: int) -> bool {
    exists|i: int| 1 <= i <= n && #[trigger] ray(x, y, d, i) == (qx, qy)
}

/// Cell `(qx, qy)` lies on one of the lines that the move captures in the
/// first `m` directions.
pub open spec fn flipped_within(placement: Placement, m: int, qx: int, qy: int) -> bool {
    exists|d: int|
        0 <= d < m && #[trigger] on_line(placement.x, placement.y, d, placement.flips[d], qx, qy)
}

/// Cell `(qx, qy)` lies on one of the lines that the move captures.
pub open spec fn flipped(placement: Placement, qx: int, qy: int) -> bool {
    flipped_within(placement, 8, qx, qy)
}

/// The move names a cell of the board, and each of its eight lines is not
/// negative in length and ends on the board.
pub open spec fn fits(placement: Placement) -> bool {
    &&& on_board(placement.x, placement.y)
    &&& placement.flips.len() == 8
    &&& forall|d: int|
        0 <= d < 8 ==> 0 <= #[trigger] placement.flips[d] && on_board(
            ray(placement.x, placement.y, d, placement.flips[d]).0,
            ray(placement.x, placement.y, d, placement.flips[d]).1,
        )
}

/// The board after the first `n` cells behind `(x, y)` in direction `d`
/// have taken `color`.
pub open spec fn recolored(cells: Cells, color: Color, x: int, y: int, d: int, n: int) -> Cells {
    Seq::new(
        8,
        |qx: int|
            Seq::new(
                8,
                |qy: int|
                    if on_line(x, y, d, n, qx, qy) {
                        Some(color)
                    } else {
                        cells[qx][qy]
                    },
            ),
    )
}

/// The board after the lines in the first `m` directions have been
/// captured, the piece itself not yet set.
pub open spec fn captured_within(cells: Cells, placement: Placement, m: int) -> Cells {
    Seq::new(
        8,
        |qx: int|
            Seq::new(
                8,
                |qy: int|
                    if flipped_within(placement, m, qx, qy) {
                        Some(placement.color)
                    } else {
                        cells[qx][qy]
                    },
            ),
    )
}

/// The board after the move: the cell played and every cell on a captured
/// line hold the mover's color, and every other cell is as it was.
pub open spec fn applied(cells: Cells, placement: Placement) -> Cells {
    Seq::new(
        8,
        |qx: int|
            Seq::new(
                8,
                |qy: int|
                    if (qx == placement.x && qy == placement.y) || flipped(placement, qx, qy) {
                        Some(placement.color)
                    } else {
                        cells[qx][qy]
                    },
            ),
    )
}

/// A legal move that the tester found on a board fits that board.
pub proof fn lemma_verdict_fits(cells: Cells, color: Color, x: int, y: int)
    requires
        on_board(x, y),
        verdict(cells, color, x, y) is Ok,
    ensures
        fits(verdict(cells, color, x, y)->Ok_0),
{
    let placement = verdict(cells, color, x, y)->Ok_0;
    assert forall|d: int| 0 <= d < 8 implies 0 <= #[trigger] placement.flips[d] && on_board(
        ray(placement.x, placement.y, d, placement.flips[d]).0,
        ray(placement.x, placement.y, d, placement.flips[d]).1,
    ) by {
        lemma_captures_on_board(cells, color, x, y, d);
    }
}

impl Board {
    /// Gives `color` to the first `n` cells behind `position` in the given
    /// direction.
    pub fn flip_direction(&mut self, color: Color, position: Coord, direction: usize, n: i8)
        requires
            direction < 8,
            0 <= n,
            on_board(position.0 as int, position.1 as int),
            on_board(
                ray(position.0 as int, position.1 as int, direction as int, n as int).0,
                ray(position.0 as int, position.1 as int, direction as int, n as int).1,
            ),
        ensures
            final(self)@ == recolored(
                old(self)@,
                color,
                position.0 as int,
                position.1 as int,
                direction as int,
                n as int,
            ),
    {
        let (dx, dy) = DIRECTIONS[direction];
        let (mut cx, mut cy) = position;
        let mut i: i8 = 0;
        let ghost x = position.0 as int;
        let ghost y = position.1 as int;
        let ghost d = direction as int;
        proof {
            lemma_ray_offset(x, y, d, 0);
            assert(self@ =~~= recolored(old(self)@, color, x, y, d, 0));
        }
        while i < n
            invariant
                0 <= d < 8,
                0 <= i <= n,
                on_board(x, y),
                on_board(ray(x, y, d, n as int).0, ray(x, y, d, n as int).1),
                (dx as int, dy as int) == delta(d),
                (cx as int, cy as int) == ray(x, y, d, i as int),
                self@ == recolored(old(self)@, color, x, y, d, i as int),
            decreases n - i,
        {
            proof {
                lemma_ray_step(x, y, d, i as int);
                lemma_ray_between(x, y, d, n as int, i as int);
                lemma_ray_between(x, y, d, n as int, i + 1);
            }
            let ghost before = self@;
            cx = cx + dx;
            cy = cy + dy;
            self.cells[cx as usize][cy as usize] = Some(color);
            i = i + 1;
            proof {
                let after = recolored(old(self)@, color, x, y, d, i as int);
                assert forall|qx: int, qy: int| on_board(qx, qy) implies #[trigger] self@[qx][qy]
                    == after[qx][qy] by {
                    if qx == cx && qy == cy {
                        assert(ray(x, y, d, i as int) == (qx, qy));
                    } else {
                        assert(self@[qx][qy] == before[qx][qy]);
                        assert(on_line(x, y, d, i as int, qx, qy) == on_line(
                            x,
                            y,
                            d,
                            i - 1,
                            qx,
                            qy,
                        ));
                    }
                }
                assert(self@ =~~= recolored(old(self)@, color, x, y, d, i as int));
            }
        }
    }

    /// Puts a piece of `color` in place and flips the lines that `flips`
    /// describes, direction by direction.
    pub fn put(&mut self, color: Color, position: Coord, flips: [i8; 8])
        requires
            fits((LegalMove { color, flips, position })@),
        ensures
            final(self)@ == applied(old(self)@, (LegalMove { color, flips, position })@),
    {
        let ghost placement = (LegalMove { color, flips, position })@;
        let (x, y) = position;
        let mut d: usize = 0;
        proof {
            assert(self@ =~~= captured_within(old(self)@, placement, 0));
        }
        while d < 8
            invariant
                0 <= d <= 8,
                position == (x, y),
                placement == (LegalMove { color, flips, position })@,
                fits(placement),
                self@ == captured_within(old(self)@, placement, d as int),
            decreases 8 - d,
        {
            let ghost before = self@;
            assert(placement.flips[d as int] == flips[d as int]);
            self.flip_direction(color, position, d, flips[d]);
            d += 1;
            proof {
                let after = captured_within(old(self)@, placement, d as int);
                assert forall|qx: int, qy: int| on_board(qx, qy) implies #[trigger] self@[qx][qy]
                    == after[qx][qy] by {
                    let here = on_line(
                        placement.x,
                        placement.y,
                        d - 1,
                        placement.flips[d - 1],
                        qx,
                        qy,
                    );
                    assert(flipped_within(placement, d as int, qx, qy) == (flipped_within(
                        placement,
                        d - 1,
                        qx,
                        qy,
                    ) || here));
                }
                assert(self@ =~~= captured_within(old(self)@, placement, d as int));
            }
        }
        let ghost before = self@;
        self.cells[x as usize][y as usize] = Some(color);
        proof {
            let after = applied(old(self)@, placement);
            assert forall|qx: int, qy: int| on_board(qx, qy) implies #[trigger] self@[qx][qy]
                == after[qx][qy] by {
                if !(qx == x && qy == y) {
                    assert(self@[qx][qy] == before[qx][qy]);
                }
            }
            assert(self@ =~~= after);
        }
    }
}

impl LegalMove {
    /// The move's lines stay on the board.
    pub open spec fn wf(&self) -> bool {
        fits(self@)
    }

    /// Whether the move's lines stay on the board: the test that a move
    /// has to pass before it is applied.
    pub fn fits_board(&self) -> (ok: bool)
        ensures
            ok == self.wf(),
    {
        if !is_on_board(self.position) {
            return false;
        }
        let (x, y) = self.position;
        let mut d: usize = 0;
        while d < 8
            invariant
                0 <= d <= 8,
                self.position == (x, y),
                on_board(x as int, y as int),
                forall|e: int|
                    0 <= e < d ==> 0 <= #[trigger] self@.flips[e] && on_board(
                        ray(x as int, y as int, e, self@.flips[e]).0,
                        ray(x as int, y as int, e, self@.flips[e]).1,
                    ),
            decreases 8 - d,
        {
            let n = self.flips[d];
            let (dx, dy) = DIRECTIONS[d];
            assert(self@.flips[d as int] == n);
            if n < 0 {
                return false;
            }
            assert(-127 <= n * dx <= 127 && -127 <= n * dy <= 127) by (nonlinear_arith)
                requires
                    0 <= n <= 127,
                    -1 <= dx <= 1,
                    -1 <= dy <= 1,
            ;
            let end_x: i16 = x as i16 + (n as i16) * (dx as i16);
            let end_y: i16 = y as i16 + (n as i16) * (dy as i16);
            if end_x < 0 || end_x > 7 || end_y < 0 || end_y > 7 {
                return false;
            }
            d += 1;
        }
        true
    }

    /// Applying a legal move returns a changed board.
    ///
    /// The cell played and the captured lines take the mover's color. Where
    /// the move is the tester's verdict on this very board, the mover gains
    /// one piece more than the move captures and the opponent loses what it
    /// captures.
    pub fn apply(&self, board: Board) -> (next: Board)
        requires
            self.wf(),
        ensures
            next@ == applied(board@, self@),
            verdict(board@, self.color, self@.x, self@.y) == Ok::<Placement, IllegalMove>(
                self@,
            ) ==> {
                &&& pieces(next@, self.color) == pieces(board@, self.color) + 1 + total(
                    self@.flips,
                )
                &&& pieces(next@, self.color.opponent()) == pieces(board@, self.color.opponent())
                    - total(self@.flips)
                &&& occupied(next@) == occupied(board@) + 1
            },
    {
        proof {
            if verdict(board@, self.color, self@.x, self@.y) == Ok::<Placement, IllegalMove>(
                self@,
            ) {
                lemma_place_counts(board@, self.color, self@.x, self@.y);
            }
        }
        let mut fresh_board = board;
        fresh_board.put(self.color, self.position, self.flips);
        fresh_board
    }
}

} // verus!
