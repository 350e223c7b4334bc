//! Straight lines of cells leaving a cell in one of the eight directions.

use crate::board::{on_board, DIRECTIONS};
use vstd::prelude::*;

verus! {

/// The column and row delta of direction number `d`.
pub open spec fn delta(d: int) -> (int, int) {
    (DIRECTIONS[d].0 as int, DIRECTIONS[d].1 as int)
}

/// The cell reached from `(x, y)` after `i` steps in direction `d`.
pub open spec fn ray(x: int, y: int, d: int, i: int) -> (int, int) {
    (x + i * delta(d).0, y + i * delta(d).1)
}

/// -1, 0 or 1 as `v` is negative, zero or positive.
pub open spec fn signum(v: int) -> int {
    if v < 0 {
        -1
    } else if v == 0 {
        0
    } else {
        1
    }
}

/// The larger of the absolute values of `a` and `b`.
pub open spec fn reach(a: int, b: int) -> int {
    let abs_a = if a < 0 { -a } else { a };
    let abs_b = if b < 0 { -b } else { b };
    if abs_a < abs_b { abs_b } else { abs_a }
}

/// Every direction moves by at most one column and one row, and by at
/// least one of them; no two directions share their deltas.
pub proof fn lemma_delta_units(d: int)
    requires
        0 <= d < 8,
    ensures
        -1 <= delta(d).0 <= 1,
        -1 <= delta(d).1 <= 1,
        delta(d) != (0int, 0int),
        forall|e: int| 0 <= e < 8 && delta(e) == delta(d) ==> e == d,
{
}

/// A product with a unit factor, written without the product.
proof fn lemma_times_unit(i: int, u: int)
    requires
        -1 <= u <= 1,
    ensures
        i * u == (if u == 0 { 0 } else if u == 1 { i } else { -i }),
{
    assert(i * 0 == 0);
    assert(i * 1 == i);
    assert(i * (-1) == -i);
}

/// Where a ray lies: its offset from the start has the signs of the
/// direction's deltas and reaches exactly `i` cells far.
pub proof fn lemma_ray_offset(x: int, y: int, d: int, i: int)
    requires
        0 <= d < 8,
        0 <= i,
    ensures
        ray(x, y, d, 0) == (x, y),
        ray(x, y, d, i).0 - x == i * delta(d).0,
        ray(x, y, d, i).1 - y == i * delta(d).1,
        i > 0 ==> signum(ray(x, y, d, i).0 - x) == delta(d).0,
        i > 0 ==> signum(ray(x, y, d, i).1 - y) == delta(d).1,
        reach(ray(x, y, d, i).0 - x, ray(x, y, d, i).1 - y) == i,
{
    lemma_delta_units(d);
    lemma_times_unit(i, delta(d).0);
    lemma_times_unit(i, delta(d).1);
    lemma_times_unit(0, delta(d).0);
    lemma_times_unit(0, delta(d).1);
}

/// One more step along a ray adds the direction's deltas once more.
pub proof fn lemma_ray_step(x: int, y: int, d: int, i: int)
    requires
        0 <= d < 8,
    ensures
        ray(x, y, d, i + 1) == (ray(x, y, d, i).0 + delta(d).0, ray(x, y, d, i).1 + delta(d).1),
{
    lemma_delta_units(d);
    lemma_times_unit(i, delta(d).0);
    lemma_times_unit(i, delta(d).1);
    lemma_times_unit(i + 1, delta(d).0);
    lemma_times_unit(i + 1, delta(d).1);
}

/// Two rays from one cell meet only where they are the same ray at the
/// same distance; and no ray comes back to its start.
pub proof fn lemma_rays_apart(x: int, y: int, d: int, i: int, e: int, j: int)
    requires
        0 <= d < 8,
        0 <= e < 8,
        1 <= i,
        1 <= j,
    ensures
        ray(x, y, d, i) == ray(x, y, e, j) ==> d == e && i == j,
        ray(x, y, d, i) != (x, y),
{
    lemma_ray_offset(x, y, d, i);
    lemma_ray_offset(x, y, e, j);
    lemma_delta_units(d);
    lemma_delta_units(e);
}

/// A ray whose ends lie on the board lies on the board between them.
pub proof fn lemma_ray_between(x: int, y: int, d: int, n: int, i: int)
    requires
        0 <= d < 8,
        0 <= i <= n,
        on_board(x, y),
        on_board(ray(x, y, d, n).0, ray(x, y, d, n).1),
    ensures
        on_board(ray(x, y, d, i).0, ray(x, y, d, i).1),
{
    lemma_delta_units(d);
    lemma_times_unit(n, delta(d).0);
    lemma_times_unit(n, delta(d).1);
    lemma_times_unit(i, delta(d).0);
    lemma_times_unit(i, delta(d).1);
}

/// A ray that starts on the board leaves it after at most seven steps.
pub proof fn lemma_ray_on_board_short(x: int, y: int, d: int, i: int)
    requires
        0 <= d < 8,
        0 <= i,
        on_board(x, y),
        on_board(ray(x, y, d, i).0, ray(x, y, d, i).1),
    ensures
        i <= 7,
{
    lemma_ray_offset(x, y, d, i);
}

} // verus!
