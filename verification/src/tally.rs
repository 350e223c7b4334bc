//! How many pieces each side has, and how a move changes that.

use crate::board::{on_board, opening, Cells};
use crate::color::Color;
use crate::legality::{captures, closes, holds, sum_first, total, verdict, Placement};
use crate::placement::{applied, flipped, flipped_within, on_line};
use crate::ray::{lemma_rays_apart, ray};
use vstd::prelude::*;
use vstd::set_lib::{
    lemma_int_range, lemma_set_difference_len, lemma_set_disjoint_lens, lemma_set_subset_finite,
    set_int_range,
};

verus! {

/// The cells of the board.
pub open spec fn board_cells() -> Set<(int, int)> {
    Set::new(|q: (int, int)| on_board(q.0, q.1))
}

/// The cells of the board that hold a piece of `color`.
pub open spec fn cells_of(cells: Cells, color: Color) -> Set<(int, int)> {
    Set::new(|q: (int, int)| holds(cells, q.0, q.1, color))
}

/// The number of pieces that `color` has on the board.
pub open spec fn pieces(cells: Cells, color: Color) -> nat {
    cells_of(cells, color).len()
}

/// The number of pieces on the board.
pub open spec fn occupied(cells: Cells) -> nat {
    pieces(cells, Color::Black) + pieces(cells, Color::White)
}

/// The first `n` cells behind `(x, y)` in direction `d`.
pub open spec fn line(x: int, y: int, d: int, n: int) -> Set<(int, int)> {
    Set::new(|q: (int, int)| on_line(x, y, d, n, q.0, q.1))
}

/// The cells on the lines that the move captures in the first `m` directions.
pub open spec fn lines(placement: Placement, m: int) -> Set<(int, int)> {
    Set::new(|q: (int, int)| flipped_within(placement, m, q.0, q.1))
}

/// The board has 64 cells.
pub proof fn lemma_board_cells_finite()
    ensures
        board_cells().finite(),
        board_cells().len() == 64,
{
    let numbers = set_int_range(0, 64);
    let cell = |k: int| (k / 8, k % 8);
    lemma_int_range(0, 64);
    numbers.lemma_map_finite(cell);
    assert forall|q: (int, int)| board_cells().contains(q) implies numbers.map(cell).contains(
        q,
    ) by {
        let k = q.0 * 8 + q.1;
        assert(numbers.contains(k) && cell(k) == q);
    }
    assert(numbers.map(cell) =~= board_cells());
    vstd::set_lib::lemma_map_size(numbers, board_cells(), cell);
}

/// Each side has a finite number of pieces, 64 at most.
pub proof fn lemma_cells_of_finite(cells: Cells, color: Color)
    ensures
        cells_of(cells, color).finite(),
        pieces(cells, color) <= 64,
{
    lemma_board_cells_finite();
    assert(cells_of(cells, color).subset_of(board_cells()));
    lemma_set_subset_finite(board_cells(), cells_of(cells, color));
    vstd::set_lib::lemma_len_subset(cells_of(cells, color), board_cells());
}

/// The opening constellation has two pieces of each color, so four in all.
pub proof fn lemma_opening_pieces()
    ensures
        pieces(opening(), Color::Black) == 2,
        pieces(opening(), Color::White) == 2,
        occupied(opening()) == 4,
{
    assert(cells_of(opening(), Color::Black) =~= set![(3int, 3int), (4int, 4int)]);
    assert(cells_of(opening(), Color::White) =~= set![(3int, 4int), (4int, 3int)]);
}

/// A line of length `n` has `n` cells.
pub proof fn lemma_line_len(x: int, y: int, d: int, n: int)
    requires
        0 <= d < 8,
        0 <= n,
    ensures
        line(x, y, d, n).finite(),
        line(x, y, d, n).len() == n,
    decreases n,
{
    if n == 0 {
        assert(line(x, y, d, n) =~= Set::empty());
    } else {
        lemma_line_len(x, y, d, n - 1);
        let last = ray(x, y, d, n);
        assert forall|i: int| 1 <= i <= n - 1 implies #[trigger] ray(x, y, d, i) != last by {
            lemma_rays_apart(x, y, d, i, d, n);
        }
        assert(!line(x, y, d, n - 1).contains(last));
        assert(line(x, y, d, n) =~= line(x, y, d, n - 1).insert(last));
    }
}

/// The lines of the first `m` directions have as many cells as their
/// lengths add up to.
pub proof fn lemma_lines_len(placement: Placement, m: int)
    requires
        0 <= m <= 8,
        forall|d: int| 0 <= d < 8 ==> 0 <= #[trigger] placement.flips[d],
    ensures
        lines(placement, m).finite(),
        lines(placement, m).len() == sum_first(placement.flips, m),
    decreases m,
{
    if m == 0 {
        assert(lines(placement, m) =~= Set::empty());
    } else {
        lemma_lines_len(placement, m - 1);
        let (x, y) = (placement.x, placement.y);
        let n = placement.flips[m - 1];
        let last = line(x, y, m - 1, n);
        let rest = lines(placement, m - 1);
        lemma_line_len(x, y, m - 1, n);
        assert forall|q: (int, int)| last.contains(q) implies !rest.contains(q) by {
            if rest.contains(q) {
                let d = choose|d: int|
                    0 <= d < m - 1 && #[trigger] on_line(x, y, d, placement.flips[d], q.0, q.1);
                let i = choose|i: int| 1 <= i <= placement.flips[d] && #[trigger] ray(x, y, d, i) == q;
                let j = choose|j: int| 1 <= j <= n && #[trigger] ray(x, y, m - 1, j) == q;
                lemma_rays_apart(x, y, d, i, m - 1, j);
            }
        }
        assert(rest.disjoint(last));
        assert forall|q: (int, int)| lines(placement, m).contains(q) implies (rest + last).contains(
            q,
        ) by {
            let d = choose|d: int|
                0 <= d < m && #[trigger] on_line(x, y, d, placement.flips[d], q.0, q.1);
            if d < m - 1 {
                assert(rest.contains(q));
            } else {
                assert(last.contains(q));
            }
        }
        assert forall|q: (int, int)| (rest + last).contains(q) implies lines(placement, m).contains(
            q,
        ) by {
            if last.contains(q) {
                assert(on_line(x, y, m - 1, placement.flips[m - 1], q.0, q.1));
            } else {
                let d = choose|d: int|
                    0 <= d < m - 1 && #[trigger] on_line(x, y, d, placement.flips[d], q.0, q.1);
                assert(0 <= d < m);
            }
        }
        assert(lines(placement, m) =~= rest + last);
        lemma_set_disjoint_lens(rest, last);
    }
}

/// Every cell on a line that a legal move captures held a piece of the
/// opponent, and the cell played is on none of them.
pub proof fn lemma_flipped_were_opposing(cells: Cells, color: Color, x: int, y: int, q: (int, int))
    requires
        on_board(x, y),
        verdict(cells, color, x, y) is Ok,
        flipped(verdict(cells, color, x, y)->Ok_0, q.0, q.1),
    ensures
        holds(cells, q.0, q.1, color.opponent()),
        q != (x, y),
{
    let placement = verdict(cells, color, x, y)->Ok_0;
    let d = choose|d: int|
        0 <= d < 8 && #[trigger] on_line(x, y, d, placement.flips[d], q.0, q.1);
    let i = choose|i: int| 1 <= i <= placement.flips[d] && #[trigger] ray(x, y, d, i) == q;
    lemma_rays_apart(x, y, d, i, d, i);
    assert(placement.flips[d] == captures(cells, color, x, y, d));
    let k = choose|k: int| closes(cells, color, x, y, d, k);
    assert(closes(cells, color, x, y, d, k));
}

/// A legal move gives the mover one piece more than it captures, and
/// takes from the opponent what it captures: the number of pieces on the
/// board grows by one.
pub proof fn lemma_place_counts(cells: Cells, color: Color, x: int, y: int)
    requires
        on_board(x, y),
        verdict(cells, color, x, y) is Ok,
    ensures
        ({
            let placement = verdict(cells, color, x, y)->Ok_0;
            let next = applied(cells, placement);
            &&& 1 <= total(placement.flips) <= pieces(cells, color.opponent())
            &&& pieces(next, color) == pieces(cells, color) + 1 + total(placement.flips)
            &&& pieces(next, color.opponent()) == pieces(cells, color.opponent()) - total(
                placement.flips,
            )
            &&& occupied(next) == occupied(cells) + 1
        }),
{
    let placement = verdict(cells, color, x, y)->Ok_0;
    let next = applied(cells, placement);
    let other = color.opponent();
    let taken = lines(placement, 8);
    let mine = cells_of(cells, color);
    let theirs = cells_of(cells, other);
    assert forall|d: int| 0 <= d < 8 implies 0 <= #[trigger] placement.flips[d] <= 6 by {
        crate::legality::lemma_captures_bounds(cells, color, x, y, d);
    }
    crate::legality::lemma_sum_first_bounds(placement.flips, 8, 6);
    crate::legality::lemma_verdict_cases(cells, color, x, y);
    lemma_lines_len(placement, 8);
    lemma_cells_of_finite(cells, color);
    lemma_cells_of_finite(cells, other);
    assert forall|q: (int, int)| taken.contains(q) implies theirs.contains(q) && !mine.contains(q)
        && q != (x, y) by {
        lemma_flipped_were_opposing(cells, color, x, y, q);
    }
    assert(cells_of(next, color) =~= (mine + taken).insert((x, y)));
    assert(cells_of(next, other) =~= theirs.difference(taken));
    lemma_set_disjoint_lens(mine, taken);
    lemma_set_difference_len(theirs, taken);
    assert(theirs.intersect(taken) =~= taken);
}

} // verus!
