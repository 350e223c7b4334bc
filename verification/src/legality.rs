//! Which cells a side may play, and what each play would capture.

use crate::board::{is_on_board, on_board, Board, Cells, Coord, DIRECTIONS};
use crate::color::Color;
use crate::placement::lemma_verdict_fits;
use crate::ray::{
    delta, lemma_ray_between, lemma_ray_offset, lemma_ray_on_board_short, lemma_ray_step, ray,
};
use vstd::prelude::*;
use vstd::string::StringExecFns;

verus! {

/// Lists the reasons why a move is illegal.
#[derive(Debug, Copy, Clone, PartialEq, Eq, Structural)]
pub enum IllegalMove {
    /// The cell is already occupied by the given color.
    Occupied(Color),
    /// The move does not cause any disks to be flipped over.
    Ineffective,
}

/// Holds the description of a legal move on the board.
#[derive(Debug, Copy, Clone, PartialEq)]
pub struct LegalMove {
    /// The color being placed.
    pub color: Color,
    /// Number of flipped pieces by direction, in the order of `DIRECTIONS`.
    pub flips: [i8; 8],
    /// The position on the board where to place the color.
    pub position: Coord,
}

/// The model of a move: who places where, and how many pieces are
/// captured in each of the eight directions.
pub struct Placement {
    pub color: Color,
    pub flips: Seq<int>,
    pub x: int,
    pub y: int,
}

impl View for LegalMove {
    type V = Placement;

    open spec fn view(&self) -> Placement {
        Placement {
            color: self.color,
            flips: Seq::new(8, |d: int| self.flips[d] as int),
            x: self.position.0 as int,
            y: self.position.1 as int,
        }
    }
}

/// A move is nothing but its model: moves with the same color, cell and
/// captures are the same value.
pub proof fn lemma_move_is_its_view(a: LegalMove, b: LegalMove)
    ensures
        a@ == b@ <==> a == b,
        a@.flips.len() == 8,
{
    if a@ == b@ {
        assert forall|d: int| 0 <= d < 8 implies a.flips[d] == b.flips[d] by {
            assert(a@.flips[d] == b@.flips[d]);
        }
        assert(a.flips =~= b.flips);
    }
}

/// The model of one entry of a legality grid.
pub type Verdict = Result<Placement, IllegalMove>;

/// The model of a legality grid: one verdict for each cell, by column and row.
pub type Verdicts = Seq<Seq<Verdict>>;

/// The model of what a test of one cell returns.
pub open spec fn verdict_view(outcome: Result<LegalMove, IllegalMove>) -> Verdict {
    match outcome {
        Ok(legal_move) => Ok(legal_move@),
        Err(reason) => Err(reason),
    }
}

/// The model of a grid of test results.
pub open spec fn grid_view(grid: Vec<Vec<Result<LegalMove, IllegalMove>>>) -> Verdicts {
    Seq::new(
        grid.len() as nat,
        |x: int| Seq::new(grid[x].len() as nat, |y: int| verdict_view(grid[x][y])),
    )
}

/// Cell `(x, y)` lies on the board and holds a piece of `color`.
pub open spec fn holds(cells: Cells, x: int, y: int, color: Color) -> bool {
    on_board(x, y) && cells[x][y] == Some(color)
}

/// The sandwich rule for one line: directly behind `(x, y)` in direction
/// `d` lie exactly `k` pieces of the opponent, and directly behind those a
/// piece of `color`.
pub open spec fn closes(cells: Cells, color: Color, x: int, y: int, d: int, k: int) -> bool {
    &&& 0 <= k
    &&& forall|i: int|
        1 <= i <= k ==> holds(
            cells,
            (#[trigger] ray(x, y, d, i)).0,
            ray(x, y, d, i).1,
            color.opponent(),
        )
    &&& holds(cells, ray(x, y, d, k + 1).0, ray(x, y, d, k + 1).1, color)
}

/// How many pieces `color` captures in direction `d` by playing `(x, y)`:
/// the length of the sandwich in that direction, and 0 where there is none.
pub open spec fn captures(cells: Cells, color: Color, x: int, y: int, d: int) -> int {
    if exists|k: int| closes(cells, color, x, y, d, k) {
        choose|k: int| closes(cells, color, x, y, d, k)
    } else {
        0
    }
}

/// The captures in all eight directions, in the order of `DIRECTIONS`.
pub open spec fn capture_counts(cells: Cells, color: Color, x: int, y: int) -> Seq<int> {
    Seq::new(8, |d: int| captures(cells, color, x, y, d))
}

/// The sum of the first `n` entries of `counts`.
pub open spec fn sum_first(counts: Seq<int>, n: int) -> int
    decreases n,
{
    if n <= 0 {
        0
    } else {
        sum_first(counts, n - 1) + counts[n - 1]
    }
}

/// The sum of all entries of `counts`.
pub open spec fn total(counts: Seq<int>) -> int {
    sum_first(counts, counts.len() as int)
}

/// What a test of cell `(x, y)` for `color` says: an occupied cell is
/// refused with its occupant, an empty cell that captures nothing is
/// refused as ineffective, and any other cell is a legal move that carries
/// its captures.
pub open spec fn verdict(cells: Cells, color: Color, x: int, y: int) -> Verdict {
    match cells[x][y] {
        Some(occupant) => Err(IllegalMove::Occupied(occupant)),
        None => {
            let flips = capture_counts(cells, color, x, y);
            if total(flips) == 0 {
                Err(IllegalMove::Ineffective)
            } else {
                Ok(Placement { color, flips, x, y })
            }
        },
    }
}

/// The verdicts on all 64 cells, by column and row.
pub open spec fn legality(cells: Cells, color: Color) -> Verdicts {
    Seq::new(8, |x: int| Seq::new(8, |y: int| verdict(cells, color, x, y)))
}

/// Some entry of the grid is a legal move.
pub open spec fn some_legal(verdicts: Verdicts) -> bool {
    exists|x: int, y: int|
        0 <= x < verdicts.len() && 0 <= y < verdicts[x].len() && (#[trigger] verdicts[x][y]) is Ok
}

/// Some cell of the board is a legal move for `color`.
pub open spec fn has_legal_move(cells: Cells, color: Color) -> bool {
    exists|x: int, y: int| on_board(x, y) && (#[trigger] verdict(cells, color, x, y)) is Ok
}

/// A line is closed at one length at most.
pub proof fn lemma_closes_once(cells: Cells, color: Color, x: int, y: int, d: int, k: int, m: int)
    requires
        closes(cells, color, x, y, d, k),
        closes(cells, color, x, y, d, m),
    ensures
        k == m,
{
    if k < m {
        assert(holds(cells, ray(x, y, d, k + 1).0, ray(x, y, d, k + 1).1, color.opponent()));
    } else if m < k {
        assert(holds(cells, ray(x, y, d, m + 1).0, ray(x, y, d, m + 1).1, color.opponent()));
    }
}

/// A line that is closed at length `k` captures `k` pieces.
pub proof fn lemma_captures_closed(cells: Cells, color: Color, x: int, y: int, d: int, k: int)
    requires
        closes(cells, color, x, y, d, k),
    ensures
        captures(cells, color, x, y, d) == k,
{
    let m = choose|m: int| closes(cells, color, x, y, d, m);
    lemma_closes_once(cells, color, x, y, d, k, m);
}

/// A line of `n` opposing pieces that then leaves the board, or meets an
/// empty cell, captures nothing.
pub proof fn lemma_captures_open(cells: Cells, color: Color, x: int, y: int, d: int, n: int)
    requires
        0 <= n,
        forall|i: int|
            1 <= i <= n ==> holds(
                cells,
                (#[trigger] ray(x, y, d, i)).0,
                ray(x, y, d, i).1,
                color.opponent(),
            ),
        !on_board(ray(x, y, d, n + 1).0, ray(x, y, d, n + 1).1) || cells[ray(x, y, d, n + 1).0][ray(
            x,
            y,
            d,
            n + 1,
        ).1] is None,
    ensures
        captures(cells, color, x, y, d) == 0,
{
    assert forall|k: int| !closes(cells, color, x, y, d, k) by {
        if closes(cells, color, x, y, d, k) {
            if k < n {
                let next = ray(x, y, d, k + 1);
                assert(holds(cells, next.0, next.1, color.opponent()));
            } else if k > n {
                let next = ray(x, y, d, n + 1);
                assert(holds(cells, next.0, next.1, color.opponent()));
            }
        }
    }
}

/// From a cell of the board no direction captures more than six pieces,
/// and none a negative number.
pub proof fn lemma_captures_bounds(cells: Cells, color: Color, x: int, y: int, d: int)
    requires
        on_board(x, y),
        0 <= d < 8,
    ensures
        0 <= captures(cells, color, x, y, d) <= 6,
{
    if exists|k: int| closes(cells, color, x, y, d, k) {
        let k = choose|k: int| closes(cells, color, x, y, d, k);
        lemma_ray_on_board_short(x, y, d, k + 1);
    }
}

/// Counts between zero and `bound` add up to no more than their number
/// times `bound`.
pub proof fn lemma_sum_first_bounds(counts: Seq<int>, n: int, bound: int)
    requires
        0 <= n <= counts.len(),
        forall|d: int| 0 <= d < n ==> 0 <= #[trigger] counts[d] <= bound,
    ensures
        0 <= sum_first(counts, n) <= n * bound,
    decreases n,
{
    if n > 0 {
        lemma_sum_first_bounds(counts, n - 1, bound);
        assert(n * bound == (n - 1) * bound + bound) by (nonlinear_arith);
    }
}

/// The legality grid of a board holds a legal move exactly where the side
/// has one on the board.
pub proof fn lemma_some_legal(cells: Cells, color: Color)
    ensures
        some_legal(legality(cells, color)) == has_legal_move(cells, color),
{
    let verdicts = legality(cells, color);
    if some_legal(verdicts) {
        let (x, y) = choose|x: int, y: int|
            0 <= x < verdicts.len() && 0 <= y < verdicts[x].len() && (
            #[trigger] verdicts[x][y]) is Ok;
        assert(verdict(cells, color, x, y) is Ok);
    }
    if has_legal_move(cells, color) {
        let (x, y) = choose|x: int, y: int|
            on_board(x, y) && (#[trigger] verdict(cells, color, x, y)) is Ok;
        assert(verdicts[x][y] is Ok);
    }
}

/// The line that a direction captures lies on the board.
pub proof fn lemma_captures_on_board(cells: Cells, color: Color, x: int, y: int, d: int)
    requires
        on_board(x, y),
        0 <= d < 8,
    ensures
        0 <= captures(cells, color, x, y, d),
        on_board(
            ray(x, y, d, captures(cells, color, x, y, d)).0,
            ray(x, y, d, captures(cells, color, x, y, d)).1,
        ),
{
    let k = captures(cells, color, x, y, d);
    if exists|k: int| closes(cells, color, x, y, d, k) {
        lemma_ray_between(x, y, d, k + 1, k);
    } else {
        lemma_ray_offset(x, y, d, 0);
    }
}

/// Counts that are not negative add up to a number that is not negative,
/// and to zero only where each of them is zero.
pub proof fn lemma_sum_first_positive(counts: Seq<int>, n: int)
    requires
        0 <= n <= counts.len(),
        forall|d: int| 0 <= d < n ==> 0 <= #[trigger] counts[d],
    ensures
        0 <= sum_first(counts, n),
        sum_first(counts, n) == 0 <==> forall|d: int| 0 <= d < n ==> #[trigger] counts[d] == 0,
    decreases n,
{
    if n > 0 {
        lemma_sum_first_positive(counts, n - 1);
        if sum_first(counts, n) == 0 {
            assert(counts[n - 1] == 0);
        }
    }
}

/// The three outcomes of a test exclude each other and leave nothing out:
/// a cell is refused as occupied exactly where it holds a piece, and then
/// with that piece's color; it is refused as ineffective exactly where it
/// is empty and captures nothing; and any other cell is a legal move, which
/// carries the captures by direction, none of them negative and one of them
/// positive.
pub proof fn lemma_verdict_cases(cells: Cells, color: Color, x: int, y: int)
    ensures
        forall|occupant: Color|
            verdict(cells, color, x, y) == Err::<Placement, IllegalMove>(
                IllegalMove::Occupied(occupant),
            ) <==> cells[x][y] == Some(occupant),
        verdict(cells, color, x, y) == Err::<Placement, IllegalMove>(IllegalMove::Ineffective)
            <==> (cells[x][y] is None && total(capture_counts(cells, color, x, y)) == 0),
        verdict(cells, color, x, y) is Ok <==> (cells[x][y] is None && total(
            capture_counts(cells, color, x, y),
        ) >= 1),
        verdict(cells, color, x, y) matches Ok(placement) ==> {
            &&& placement.color == color
            &&& placement.x == x
            &&& placement.y == y
            &&& placement.flips == capture_counts(cells, color, x, y)
            &&& total(placement.flips) >= 1
            &&& forall|d: int| 0 <= d < 8 ==> 0 <= #[trigger] placement.flips[d]
            &&& exists|d: int| 0 <= d < 8 && 0 < #[trigger] placement.flips[d]
        },
{
    let counts = capture_counts(cells, color, x, y);
    assert forall|d: int| 0 <= d < 8 implies 0 <= #[trigger] counts[d] by {}
    lemma_sum_first_positive(counts, 8);
}

impl IllegalMove {
    /// The reason as it is shown to players.
    pub open spec fn text(self) -> Seq<char> {
        match self {
            IllegalMove::Occupied(color) => "Occupied by "@ + color.text(),
            IllegalMove::Ineffective => "Ineffective"@,
        }
    }

    /// Renders the reason, naming the occupant of an occupied cell.
    pub fn to_string(&self) -> (s: String)
        ensures
            s@ == self.text(),
    {
        match *self {
            IllegalMove::Occupied(color) => {
                let occupant = color.to_string();
                String::from_str("Occupied by ").concat(occupant.as_str())
            },
            IllegalMove::Ineffective => String::from_str("Ineffective"),
        }
    }
}

impl Board {
    /// Finds the number of opponent's pieces sandwiched in a straight line
    /// between `position` and the next piece of `color` in the given
    /// direction.
    pub fn test_direction(&self, color: Color, position: Coord, direction: usize) -> (n: i8)
        requires
            on_board(position.0 as int, position.1 as int),
            direction < 8,
        ensures
            n == captures(self@, color, position.0 as int, position.1 as int, direction as int),
    {
        let (dx, dy) = DIRECTIONS[direction];
        let (mut cx, mut cy) = position;
        let mut n: i8 = 0;
        let ghost x = position.0 as int;
        let ghost y = position.1 as int;
        let ghost d = direction as int;
        proof {
            lemma_ray_offset(x, y, d, 0);
        }
        loop
            invariant
                0 <= d < 8,
                d == direction,
                x == position.0,
                y == position.1,
                on_board(x, y),
                0 <= n <= 7,
                (dx as int, dy as int) == delta(d),
                (cx as int, cy as int) == ray(x, y, d, n as int),
                on_board(cx as int, cy as int),
                forall|i: int|
                    1 <= i <= n ==> holds(
                        self@,
                        (#[trigger] ray(x, y, d, i)).0,
                        ray(x, y, d, i).1,
                        color.opponent(),
                    ),
            decreases 7 - n,
        {
            proof {
                lemma_ray_step(x, y, d, n as int);
            }
            let nx = cx + dx;
            let ny = cy + dy;
            if !is_on_board((nx, ny)) {
                proof {
                    lemma_captures_open(self@, color, x, y, d, n as int);
                }
                return 0;
            }
            match self.cells[nx as usize][ny as usize] {
                None => {
                    proof {
                        lemma_captures_open(self@, color, x, y, d, n as int);
                    }
                    return 0;
                },
                Some(found) => {
                    if found == color {
                        proof {
                            lemma_captures_closed(self@, color, x, y, d, n as int);
                        }
                        return n;
                    }
                    proof {
                        lemma_ray_on_board_short(x, y, d, n + 1);
                        assert(found == color.opponent());
                    }
                    n = n + 1;
                    cx = nx;
                    cy = ny;
                },
            }
        }
    }

    /// Tests whether placing `color` on `position` flips anything, and
    /// returns the flips by direction; otherwise gives the reason why the
    /// move is illegal.
    pub fn test_cell(&self, color: Color, position: Coord) -> (outcome: Result<
        LegalMove,
        IllegalMove,
    >)
        requires
            on_board(position.0 as int, position.1 as int),
        ensures
            verdict_view(outcome) == verdict(self@, color, position.0 as int, position.1 as int),
            forall|occupant: Color|
                outcome == Err::<LegalMove, IllegalMove>(IllegalMove::Occupied(occupant))
                    <==> self@[position.0 as int][position.1 as int] == Some(occupant),
            outcome == Err::<LegalMove, IllegalMove>(IllegalMove::Ineffective) <==> (
            self@[position.0 as int][position.1 as int] is None && total(
                capture_counts(self@, color, position.0 as int, position.1 as int),
            ) == 0),
            outcome matches Ok(legal_move) ==> {
                &&& legal_move.color == color
                &&& legal_move.position == position
                &&& legal_move@.flips == capture_counts(
                    self@,
                    color,
                    position.0 as int,
                    position.1 as int,
                )
                &&& total(legal_move@.flips) >= 1
                &&& legal_move.wf()
            },
    {
        let (x, y) = position;
        proof {
            lemma_verdict_cases(self@, color, x as int, y as int);
            if verdict(self@, color, x as int, y as int) is Ok {
                lemma_verdict_fits(self@, color, x as int, y as int);
            }
        }
        match self.cells[x as usize][y as usize] {
            Some(occupant) => Err(IllegalMove::Occupied(occupant)),
            None => {
                let ghost counts = capture_counts(self@, color, x as int, y as int);
                let mut sum: i8 = 0;
                let mut flips = [0i8;8];
                let mut i: usize = 0;
                while i < 8
                    invariant
                        0 <= i <= 8,
                        position == (x, y),
                        on_board(x as int, y as int),
                        counts == capture_counts(self@, color, x as int, y as int),
                        sum == sum_first(counts, i as int),
                        0 <= sum <= 6 * i,
                        forall|d: int| 0 <= d < i ==> flips[d] == #[trigger] counts[d],
                    decreases 8 - i,
                {
                    let n = self.test_direction(color, position, i);
                    proof {
                        lemma_captures_bounds(self@, color, x as int, y as int, i as int);
                        assert(counts[i as int] == n);
                    }
                    sum += n;
                    flips[i] = n;
                    i += 1;
                }
                if sum == 0 {
                    Err(IllegalMove::Ineffective)
                } else {
                    let legal_move = LegalMove { color: color, flips: flips, position: position };
                    assert(legal_move@.flips =~= counts);
                    Ok(legal_move)
                }
            },
        }
    }

    /// Tests all the moves a given player can take on the board: one
    /// verdict for each of the 64 cells, with the column as the primary
    /// index.
    pub fn test(&self, color: Color) -> (grid: Vec<Vec<Result<LegalMove, IllegalMove>>>)
        ensures
            grid_view(grid) == legality(self@, color),
    {
        let mut grid: Vec<Vec<Result<LegalMove, IllegalMove>>> = Vec::new();
        let mut x: i8 = 0;
        while x < 8
            invariant
                0 <= x <= 8,
                grid.len() == x,
                forall|cx: int|
                    0 <= cx < x ==> (#[trigger] grid[cx]).len() == 8 && forall|cy: int|
                        0 <= cy < 8 ==> verdict_view(#[trigger] grid[cx][cy]) == verdict(
                            self@,
                            color,
                            cx,
                            cy,
                        ),
            decreases 8 - x,
        {
            let mut column: Vec<Result<LegalMove, IllegalMove>> = Vec::new();
            let mut y: i8 = 0;
            while y < 8
                invariant
                    0 <= x < 8,
                    0 <= y <= 8,
                    column.len() == y,
                    forall|cy: int|
                        0 <= cy < y ==> verdict_view(#[trigger] column[cy]) == verdict(
                            self@,
                            color,
                            x as int,
                            cy,
                        ),
                decreases 8 - y,
            {
                let outcome = self.test_cell(color, (x, y));
                column.push(outcome);
                y += 1;
            }
            grid.push(column);
            x += 1;
        }
        assert(grid_view(grid) =~~= legality(self@, color));
        grid
    }
}

} // verus!
