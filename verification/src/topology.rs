//! The topology of the board: the grid of a round, the row-major order of
//! its cells, and the cells that a round blocks.
//!
//! Round `n` plays on a grid of `2n + 3` rows and `n + 3` columns. Every
//! sub-round `k` from `1` to `n` blocks two runs of cells, its ceiling and its
//! side walls, which leaves a diagonal band of overlapping 3 by 3 blocks.

use vstd::prelude::*;

verus! {

/// The largest round whose grid can still be counted in a `u32`.
pub const MAX_ROUND: u32 = 46_338;

/// Number of rows of the grid of round `n`.
pub open spec fn num_rows(n: nat) -> nat {
    2 * n + 3
}

/// Number of columns of the grid of round `n`.
pub open spec fn num_cols(n: nat) -> nat {
    n + 3
}

/// Number of cells of the grid of round `n`.
pub open spec fn grid_size(n: nat) -> nat {
    num_rows(n) * num_cols(n)
}

/// Whether `(x, y)` lies in the bounding rectangle of round `n`.
pub open spec fn in_bounds(n: nat, x: int, y: int) -> bool {
    0 <= x < num_rows(n) && 0 <= y < num_cols(n)
}

/// The position of `(x, y)` in a row-major grid of `cols` columns.
pub open spec fn flat_index(x: int, y: int, cols: int) -> int {
    x * cols + y
}

/// The cell at the row-major position `i` of the grid of round `n`.
pub open spec fn coord_at(n: nat, i: int) -> (u32, u32) {
    ((i / (num_cols(n) as int)) as u32, (i % (num_cols(n) as int)) as u32)
}

/// The row-major position of `(x, y)` in a grid of `num_cols` columns.
pub fn get_index(x: u32, y: u32, num_cols: u32) -> (index: usize)
    requires
        x * num_cols + y <= u32::MAX,
    ensures
        index == flat_index(x as int, y as int, num_cols as int),
{
    assert(x * num_cols <= u32::MAX) by (nonlinear_arith)
        requires
            x * num_cols + y <= u32::MAX,
            0 <= y,
    ;
    let index = (x * num_cols) + y;
    index as usize
}

/// Whether sub-round `k` blocks `(x, y)`: its ceiling, the cells `(x, k + 2)`
/// with `x` below `2k`, or its side walls, the cells `(2k + 1, y)` and
/// `(2k + 2, y)` with `y` below `k`.
pub open spec fn blocked_by_sub_round(k: int, x: int, y: int) -> bool {
    ||| (y == k + 2 && 0 <= x < 2 * k)
    ||| ((x == 2 * k + 1 || x == 2 * k + 2) && 0 <= y < k)
}

/// Whether `(x, y)` is blocked in round `n`: some sub-round from `1` to `n`
/// blocks it. The fills of the board play no part in it.
pub open spec fn is_invalid(n: nat, x: int, y: int) -> bool {
    exists|k: int| 1 <= k <= n && #[trigger] blocked_by_sub_round(k, x, y)
}

/// The ceiling of sub-round `k`: the cells `(x, k + 2)` for `x` below `2k`,
/// by rising `x`.
pub open spec fn ceiling_cells(k: nat) -> Seq<(u32, u32)> {
    Seq::new(2 * k, |x: int| (x as u32, (k + 2) as u32))
}

/// The side walls of sub-round `k`: the cells `(2k + 1, y)` and `(2k + 2, y)`
/// for `y` below `k`, by rising `y`, the two cells of each `y` together.
pub open spec fn wall_cells(k: nat) -> Seq<(u32, u32)> {
    Seq::new(2 * k, |j: int| ((2 * k + 1 + j % 2) as u32, (j / 2) as u32))
}

/// The blocked cells of round `n`: ceiling and side walls of each sub-round
/// from `1` to `n`, in this order.
pub open spec fn invalid_cells(n: nat) -> Seq<(u32, u32)>
    decreases n,
{
    if n == 0 {
        Seq::empty()
    } else {
        invalid_cells((n - 1) as nat) + ceiling_cells(n) + wall_cells(n)
    }
}

/// Whether `(x, y)` is blocked in round `n`.
pub fn is_invalid_cell(n: u32, x: u32, y: u32) -> (blocked: bool)
    ensures
        blocked == is_invalid(n as nat, x as int, y as int),
{
    proof {
        lemma_is_invalid_closed_form(n as nat, x as int, y as int);
    }
    (y >= 3 && y - 2 <= n && x / 2 < y - 2) || (x >= 3 && (x - 1) / 2 <= n && y < (x - 1) / 2)
}

/// Appends the blocked cells of round `n` to `list`: for each sub-round `k`
/// from `1` to `n` first the cells `(x, k + 2)` for `x` below `2k`, then for
/// each `y` below `k` the cells `(2k + 1, y)` and `(2k + 2, y)`.
pub fn generate_invalid_cells(n: u32, list: &mut Vec<(u32, u32)>)
    requires
        2 * n + 2 <= u32::MAX,
    ensures
        final(list)@ == old(list)@ + invalid_cells(n as nat),
{
    let mut current_n: u32 = 1;
    assert(old(list)@ + invalid_cells(0) =~= old(list)@);
    while current_n <= n
        invariant
            1 <= current_n <= n + 1,
            2 * n + 2 <= u32::MAX,
            list@ == old(list)@ + invalid_cells((current_n - 1) as nat),
        decreases n + 1 - current_n,
    {
        let ghost before = list@;
        let y: u32 = current_n + 2;
        let mut x: u32 = 0;
        while x < 2 * current_n
            invariant
                1 <= current_n <= n,
                2 * n + 2 <= u32::MAX,
                y == current_n + 2,
                0 <= x <= 2 * current_n,
                list@ == before + ceiling_cells(current_n as nat).take(x as int),
            decreases 2 * current_n - x,
        {
            list.push((x, y));
            assert(ceiling_cells(current_n as nat).take(x as int).push((x, y))
                =~= ceiling_cells(current_n as nat).take(x + 1));
            x += 1;
        }
        assert(ceiling_cells(current_n as nat).take(2 * current_n as int) =~= ceiling_cells(
            current_n as nat,
        ));
        let ghost middle = list@;
        let mut y: u32 = 0;
        while y < current_n
            invariant
                1 <= current_n <= n,
                2 * n + 2 <= u32::MAX,
                0 <= y <= current_n,
                list@ == middle + wall_cells(current_n as nat).take(2 * y),
            decreases current_n - y,
        {
            list.push((2 * current_n + 1, y));
            list.push((2 * current_n + 2, y));
            assert(wall_cells(current_n as nat).take(2 * y).push(
                ((2 * current_n + 1) as u32, y),
            ).push(((2 * current_n + 2) as u32, y)) =~= wall_cells(current_n as nat).take(
                2 * (y + 1),
            ));
            y += 1;
        }
        assert(wall_cells(current_n as nat).take(2 * current_n as int) =~= wall_cells(
            current_n as nat,
        ));
        assert(list@ =~= old(list)@ + invalid_cells(current_n as nat));
        current_n += 1;
    }
}

/// The grid of every round up to `MAX_ROUND` can be counted in a `u32`.
pub proof fn lemma_grid_size_bound(n: nat)
    requires
        n <= MAX_ROUND,
    ensures
        grid_size(n) <= u32::MAX,
{
    assert((2 * n + 3) * (n + 3) <= 4_294_837_539) by (nonlinear_arith)
        requires
            n <= 46_338,
    ;
}

/// The grid of the round after `MAX_ROUND` cannot be counted in a `u32`.
pub proof fn lemma_max_round_is_largest()
    ensures
        grid_size(MAX_ROUND as nat + 1) > u32::MAX,
{
    assert(92_681 * 46_342 == 4_295_022_902int) by (nonlinear_arith);
}

/// A position inside a row-major grid stays inside it.
pub proof fn lemma_flat_index_bound(x: int, y: int, rows: int, cols: int)
    requires
        0 <= x < rows,
        0 <= y < cols,
    ensures
        0 <= flat_index(x, y, cols) < rows * cols,
{
    assert(0 <= x * cols && x * cols + cols <= rows * cols) by (nonlinear_arith)
        requires
            0 <= x < rows,
            0 < cols,
    ;
}

/// Row and column are recovered from a row-major position by division.
pub proof fn lemma_flat_index_inverse(x: int, y: int, cols: int)
    requires
        0 <= x,
        0 <= y < cols,
    ensures
        flat_index(x, y, cols) / cols == x,
        flat_index(x, y, cols) % cols == y,
{
    vstd::arithmetic::div_mod::lemma_fundamental_div_mod_converse(x * cols + y, cols, x, y);
}

/// Every position of a row-major grid is that of its row and column.
pub proof fn lemma_coord_of_position(i: int, rows: int, cols: int)
    requires
        0 < cols,
        0 <= i < rows * cols,
    ensures
        0 <= i / cols < rows,
        0 <= i % cols < cols,
        flat_index(i / cols, i % cols, cols) == i,
{
    vstd::arithmetic::div_mod::lemma_fundamental_div_mod(i, cols);
    vstd::arithmetic::div_mod::lemma_mod_bound(i, cols);
    assert(0 <= i / cols < rows) by (nonlinear_arith)
        requires
            0 < cols,
            0 <= i < rows * cols,
            i == cols * (i / cols) + i % cols,
            0 <= i % cols < cols,
    ;
    assert(cols * (i / cols) == (i / cols) * cols) by (nonlinear_arith);
}

/// A blocked cell is blocked by the sub-round that its own coordinates
/// name: `y - 2` for a cell of a ceiling, `(x - 1) / 2` for a cell of a side
/// wall.
pub proof fn lemma_is_invalid_closed_form(n: nat, x: int, y: int)
    requires
        0 <= x,
        0 <= y,
    ensures
        is_invalid(n, x, y) <==> ((3 <= y <= n + 2 && x < 2 * (y - 2)) || (3 <= x && (x - 1) / 2
            <= n && y < (x - 1) / 2)),
{
    if 3 <= y <= n + 2 && x < 2 * (y - 2) {
        assert(blocked_by_sub_round(y - 2, x, y));
    }
    if 3 <= x && (x - 1) / 2 <= n && y < (x - 1) / 2 {
        assert(blocked_by_sub_round((x - 1) / 2, x, y));
    }
}

/// Round `n` blocks `2n(n + 1)` cells.
pub proof fn lemma_invalid_cells_len(n: nat)
    ensures
        invalid_cells(n).len() == 2 * n * (n + 1),
    decreases n,
{
    if n > 0 {
        let m = (n - 1) as nat;
        lemma_invalid_cells_len(m);
        assert(2 * m * (m + 1) + 4 * n == 2 * n * (n + 1)) by (nonlinear_arith)
            requires
                m + 1 == n,
        ;
    } else {
        assert(2 * n * (n + 1) == 0) by (nonlinear_arith)
            requires
                n == 0,
        ;
    }
}

/// The list of blocked cells of round `n` holds exactly the cells that
/// `is_invalid` names.
pub proof fn lemma_invalid_cells_contains(n: nat, x: u32, y: u32)
    requires
        2 * n + 2 <= u32::MAX,
    ensures
        invalid_cells(n).contains((x, y)) <==> is_invalid(n, x as int, y as int),
    decreases n,
{
    if n > 0 {
        let m = (n - 1) as nat;
        lemma_invalid_cells_contains(m, x, y);
        let earlier = invalid_cells(m);
        let ceiling = ceiling_cells(n);
        let walls = wall_cells(n);
        let all = invalid_cells(n);
        if all.contains((x, y)) {
            let i = choose|i: int| 0 <= i < all.len() && all[i] == (x, y);
            if i < earlier.len() {
                assert(earlier[i] == (x, y));
                let k = choose|k: int|
                    1 <= k <= m && #[trigger] blocked_by_sub_round(k, x as int, y as int);
                assert(blocked_by_sub_round(k, x as int, y as int));
            } else if i < earlier.len() + ceiling.len() {
                assert(ceiling[i - earlier.len()] == (x, y));
                assert(blocked_by_sub_round(n as int, x as int, y as int));
            } else {
                assert(walls[i - earlier.len() - ceiling.len()] == (x, y));
                assert(blocked_by_sub_round(n as int, x as int, y as int));
            }
        }
        if is_invalid(n, x as int, y as int) {
            let k = choose|k: int|
                1 <= k <= n && #[trigger] blocked_by_sub_round(k, x as int, y as int);
            if k <= m {
                assert(is_invalid(m, x as int, y as int));
                let i = choose|i: int| 0 <= i < earlier.len() && earlier[i] == (x, y);
                assert(all[i] == (x, y));
            } else if y == n + 2 {
                assert(ceiling[x as int] == (x, y));
                assert(all[earlier.len() + x] == (x, y));
            } else {
                let j = if x == 2 * n + 1 {
                    2 * y
                } else {
                    2 * y + 1
                };
                assert(walls[j] == (x, y));
                assert(all[earlier.len() + ceiling.len() + j] == (x, y));
            }
        }
    }
}

/// The next round blocks no cell of a grid that the round of the grid has
/// not blocked: what the next sub-round blocks lies outside the grid.
pub proof fn lemma_blocked_cells_are_stable(n: nat, x: int, y: int)
    requires
        in_bounds(n, x, y),
    ensures
        is_invalid(n + 1, x, y) == is_invalid(n, x, y),
{
    if is_invalid(n, x, y) {
        let k = choose|k: int| 1 <= k <= n && #[trigger] blocked_by_sub_round(k, x, y);
        assert(blocked_by_sub_round(k, x, y));
    }
    if is_invalid(n + 1, x, y) {
        let k = choose|k: int| 1 <= k <= n + 1 && #[trigger] blocked_by_sub_round(k, x, y);
        assert(blocked_by_sub_round(k, x, y));
        assert(k <= n);
    }
}

} // verus!
