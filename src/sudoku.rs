//! A backtracking solver for 9x9 sudoku grids.
use vstd::prelude::*;

verus! {

/// A 9x9 grid; 0 marks an empty cell, 1 to 9 a placed digit.
pub type Grid = [[i8; 9]; 9];

pub open spec fn cell(g: Grid, r: int, c: int) -> int {
    g[r][c] as int
}

pub open spec fn on_grid(r: int, c: int) -> bool {
    0 <= r < 9 && 0 <= c < 9
}

/// Two positions share a row, a column or a 3x3 box.
pub open spec fn same_unit(r1: int, c1: int, r2: int, c2: int) -> bool {
    r1 == r2 || c1 == c2 || (r1 / 3 == r2 / 3 && c1 / 3 == c2 / 3)
}

/// Every cell holds 0 or a digit.
pub open spec fn well_formed(g: Grid) -> bool {
    forall|r: int, c: int| on_grid(r, c) ==> 0 <= #[trigger] cell(g, r, c) <= 9
}

/// No digit appears twice in a row, a column or a box.
pub open spec fn consistent(g: Grid) -> bool {
    forall|r1: int, c1: int, r2: int, c2: int|
        on_grid(r1, c1) && on_grid(r2, c2) && (r1 != r2 || c1 != c2) && same_unit(r1, c1, r2, c2)
            && cell(g, r1, c1) != 0 ==> #[trigger] cell(g, r1, c1) != #[trigger] cell(g, r2, c2)
}

/// No cell is empty.
pub open spec fn complete(g: Grid) -> bool {
    forall|r: int, c: int| on_grid(r, c) ==> #[trigger] cell(g, r, c) != 0
}

pub open spec fn solved(g: Grid) -> bool {
    well_formed(g) && complete(g) && consistent(g)
}

/// `s` keeps every digit that `g` holds.
pub open spec fn extends(s: Grid, g: Grid) -> bool {
    forall|r: int, c: int| on_grid(r, c) && cell(g, r, c) != 0 ==> #[trigger] cell(s, r, c) == cell(g, r, c)
}

pub open spec fn solvable(g: Grid) -> bool {
    exists|s: Grid| solved(s) && extends(s, g)
}

/// `num` already stands in a cell that shares a unit with (row, col).
pub open spec fn used_near(g: Grid, row: int, col: int, num: int) -> bool {
    exists|r: int, c: int| on_grid(r, c) && same_unit(row, col, r, c) && #[trigger] cell(g, r, c) == num
}

/// Row of the k-th cell (0 <= k < 9) of a unit: `kind` 0 is row `u`, 1 is
/// column `u`, 2 is the u-th box in row-major order.
pub open spec fn unit_row(kind: int, u: int, k: int) -> int {
    if kind == 0 {
        u
    } else if kind == 1 {
        k
    } else {
        3 * (u / 3) + k / 3
    }
}

/// Column of the k-th cell of a unit; see `unit_row`.
pub open spec fn unit_col(kind: int, u: int, k: int) -> int {
    if kind == 0 {
        k
    } else if kind == 1 {
        u
    } else {
        3 * (u % 3) + k % 3
    }
}

/// The nine values of a unit, in order.
pub open spec fn unit_values(g: Grid, kind: int, u: int) -> Seq<int> {
    Seq::new(9, |k: int| cell(g, unit_row(kind, u, k), unit_col(kind, u, k)))
}

/// The cell at (r1, c1) holds 0 or a digit that no other cell of its units
/// repeats.
pub open spec fn clash_free_at(g: Grid, r1: int, c1: int) -> bool {
    0 <= cell(g, r1, c1) <= 9 && forall|r2: int, c2: int|
        on_grid(r2, c2) && (r1 != r2 || c1 != c2) && same_unit(r1, c1, r2, c2) && cell(g, r1, c1) != 0
            ==> cell(g, r1, c1) != #[trigger] cell(g, r2, c2)
}

/// Some completion of `g` holds `d` at (r, c).
pub open spec fn completion_with(g: Grid, r: int, c: int, d: int) -> bool {
    exists|s: Grid| solved(s) && extends(s, g) && #[trigger] cell(s, r, c) == d
}

/// `next` is `g` with `num` written at (row, col).
pub open spec fn placed(g: Grid, next: Grid, row: int, col: int, num: int) -> bool {
    forall|r: int, c: int|
        on_grid(r, c) ==> #[trigger] cell(next, r, c) == if r == row && c == col {
            num
        } else {
            cell(g, r, c)
        }
}

pub open spec fn row_empties(row: [i8; 9], n: int) -> nat
    decreases n,
{
    if n <= 0 {
        0
    } else {
        row_empties(row, n - 1) + if row[n - 1] == 0 { 1nat } else { 0nat }
    }
}

pub open spec fn grid_empties(g: Grid, n: int) -> nat
    decreases n,
{
    if n <= 0 {
        0
    } else {
        grid_empties(g, n - 1) + row_empties(g[n - 1], 9)
    }
}

proof fn lemma_row_fill(row: [i8; 9], row2: [i8; 9], c: int, n: int)
    requires
        0 <= c < 9,
        0 <= n <= 9,
        row[c] == 0,
        row2[c] != 0,
        forall|i: int| 0 <= i < 9 && i != c ==> row2[i] == row[i],
    ensures
        row_empties(row2, n) + (if c < n { 1nat } else { 0nat }) == row_empties(row, n),
    decreases n,
{
    if n > 0 {
        lemma_row_fill(row, row2, c, n - 1);
    }
}

proof fn lemma_grid_fill(g: Grid, g2: Grid, r: int, n: int)
    requires
        0 <= r < 9,
        0 <= n <= 9,
        row_empties(g2[r], 9) + 1 == row_empties(g[r], 9),
        forall|i: int| 0 <= i < 9 && i != r ==> g2[i] == g[i],
    ensures
        grid_empties(g2, n) + (if r < n { 1nat } else { 0nat }) == grid_empties(g, n),
    decreases n,
{
    if n > 0 {
        lemma_grid_fill(g, g2, r, n - 1);
    }
}

proof fn lemma_place(g: Grid, next: Grid, row: int, col: int, num: int)
    requires
        on_grid(row, col),
        1 <= num <= 9,
        well_formed(g),
        consistent(g),
        cell(g, row, col) == 0,
        !used_near(g, row, col, num),
        placed(g, next, row, col, num),
        forall|i: int| 0 <= i < 9 && i != row ==> next[i] == g[i],
        forall|j: int| 0 <= j < 9 && j != col ==> next[row][j] == g[row][j],
    ensures
        well_formed(next),
        consistent(next),
        extends(next, g),
        grid_empties(next, 9) < grid_empties(g, 9),
        forall|s: Grid| extends(s, g) && #[trigger] cell(s, row, col) == num ==> extends(s, next),
{
    assert forall|r1: int, c1: int, r2: int, c2: int|
        on_grid(r1, c1) && on_grid(r2, c2) && (r1 != r2 || c1 != c2) && same_unit(r1, c1, r2, c2)
            && cell(next, r1, c1) != 0 implies #[trigger] cell(next, r1, c1) != #[trigger] cell(next, r2, c2) by {
        if r1 == row && c1 == col {
            assert(cell(next, r2, c2) == cell(g, r2, c2));
        } else if r2 == row && c2 == col {
            assert(cell(next, r1, c1) == cell(g, r1, c1));
            assert(same_unit(row, col, r1, c1));
        } else {
            assert(cell(next, r1, c1) == cell(g, r1, c1));
            assert(cell(next, r2, c2) == cell(g, r2, c2));
        }
    }
    assert(cell(next, row, col) == num);
    lemma_row_fill(g[row], next[row], col, 9);
    lemma_grid_fill(g, next, row, 9);
}

/// In a solved grid every row, column and box holds each digit from 1 to 9
/// exactly once.
pub proof fn lemma_solved_units(g: Grid, kind: int, u: int, d: int)
    requires
        solved(g),
        0 <= kind < 3,
        0 <= u < 9,
        1 <= d <= 9,
    ensures
        exists|k: int|
            0 <= k < 9 && #[trigger] unit_values(g, kind, u)[k] == d && forall|j: int|
                0 <= j < 9 && #[trigger] unit_values(g, kind, u)[j] == d ==> j == k,
{
    let vals = unit_values(g, kind, u);
    assert forall|i: int, j: int| 0 <= i < 9 && 0 <= j < 9 && i != j implies vals[i] != vals[j] by {
        let (r1, c1) = (unit_row(kind, u, i), unit_col(kind, u, i));
        let (r2, c2) = (unit_row(kind, u, j), unit_col(kind, u, j));
        assert(on_grid(r1, c1) && on_grid(r2, c2));
        assert(r1 != r2 || c1 != c2);
        assert(same_unit(r1, c1, r2, c2));
        assert(cell(g, r1, c1) != 0);
        assert(cell(g, r1, c1) != cell(g, r2, c2));
    }
    assert(vals.no_duplicates());
    vals.unique_seq_to_set();
    vstd::set_lib::lemma_int_range(1, 10);
    let digits = vstd::set_lib::set_int_range(1, 10);
    assert forall|x: int| vals.to_set().contains(x) implies digits.contains(x) by {
        let k = choose|k: int| 0 <= k < vals.len() && vals[k] == x;
        assert(on_grid(unit_row(kind, u, k), unit_col(kind, u, k)));
    }
    vstd::set_lib::lemma_subset_equality(vals.to_set(), digits);
    assert(digits.contains(d));
    assert(vals.to_set().contains(d));
    let k = choose|k: int| 0 <= k < vals.len() && vals[k] == d;
    assert(forall|j: int| 0 <= j < 9 && vals[j] == d ==> j == k);
}

/// Whether `num` occurs in row `row`.
pub fn used_in_row(grid: Grid, row: usize, num: i8) -> (r: bool)
    requires
        row < 9,
    ensures
        r == exists|c: int| 0 <= c < 9 && #[trigger] cell(grid, row as int, c) == num,
{
    let line = grid[row];
    let mut i: usize = 0;
    while i < 9
        invariant
            i <= 9,
            row < 9,
            line == grid[row as int],
            forall|c: int| 0 <= c < i ==> #[trigger] cell(grid, row as int, c) != num,
        decreases 9 - i,
    {
        if line[i] == num {
            assert(cell(grid, row as int, i as int) == num);
            return true;
        }
        i = i + 1;
    }
    false
}

/// Whether `num` occurs in column `col`.
pub fn used_in_col(grid: Grid, col: usize, num: i8) -> (r: bool)
    requires
        col < 9,
    ensures
        r == exists|rr: int| 0 <= rr < 9 && #[trigger] cell(grid, rr, col as int) == num,
{
    let mut i: usize = 0;
    while i < 9
        invariant
            i <= 9,
            col < 9,
            forall|rr: int| 0 <= rr < i ==> #[trigger] cell(grid, rr, col as int) != num,
        decreases 9 - i,
    {
        if grid[i][col] == num {
            assert(cell(grid, i as int, col as int) == num);
            return true;
        }
        i = i + 1;
    }
    false
}

/// Whether `num` occurs in the 3x3 box that holds (row, col).
pub fn used_in_box(grid: Grid, row: usize, col: usize, num: i8) -> (r: bool)
    requires
        row < 9,
        col < 9,
    ensures
        r == exists|rr: int, cc: int|
            on_grid(rr, cc) && rr / 3 == row / 3 && cc / 3 == col / 3 && #[trigger] cell(grid, rr, cc) == num,
{
    let first_row = row - row % 3;
    let first_col = col - col % 3;
    let mut i: usize = 0;
    while i < 3
        invariant
            i <= 3,
            row < 9,
            col < 9,
            first_row == row - row % 3,
            first_col == col - col % 3,
            forall|rr: int, cc: int|
                on_grid(rr, cc) && rr / 3 == row / 3 && cc / 3 == col / 3 && rr < first_row + i
                    ==> #[trigger] cell(grid, rr, cc) != num,
        decreases 3 - i,
    {
        let mut j: usize = 0;
        while j < 3
            invariant
                i < 3,
                j <= 3,
                row < 9,
                col < 9,
                first_row == row - row % 3,
                first_col == col - col % 3,
                forall|rr: int, cc: int|
                    on_grid(rr, cc) && rr / 3 == row / 3 && cc / 3 == col / 3 && rr < first_row + i
                        ==> #[trigger] cell(grid, rr, cc) != num,
                forall|cc: int|
                    0 <= cc < 9 && cc / 3 == col / 3 && cc < first_col + j
                        ==> #[trigger] cell(grid, first_row + i, cc) != num,
            decreases 3 - j,
        {
            if grid[first_row + i][first_col + j] == num {
                assert(cell(grid, (first_row + i) as int, (first_col + j) as int) == num);
                return true;
            }
            j = j + 1;
        }
        i = i + 1;
    }
    false
}

/// Whether `num` may stand at (row, col): it is in none of the cell's row,
/// column and box.
pub fn is_location_safe(grid: Grid, row: usize, col: usize, num: i8) -> (r: bool)
    requires
        row < 9,
        col < 9,
    ensures
        r == !used_near(grid, row as int, col as int, num as int),
{
    let in_col = used_in_col(grid, col, num);
    let in_row = used_in_row(grid, row, num);
    let in_box = used_in_box(grid, row, col, num);
    proof {
        if in_col {
            let rr = choose|rr: int| 0 <= rr < 9 && #[trigger] cell(grid, rr, col as int) == num;
            assert(on_grid(rr, col as int) && same_unit(row as int, col as int, rr, col as int));
        }
        if in_row {
            let cc = choose|cc: int| 0 <= cc < 9 && #[trigger] cell(grid, row as int, cc) == num;
            assert(on_grid(row as int, cc) && same_unit(row as int, col as int, row as int, cc));
        }
        if in_box {
            let (rr, cc) = choose|rr: int, cc: int|
                on_grid(rr, cc) && rr / 3 == row / 3 && cc / 3 == col / 3 && #[trigger] cell(grid, rr, cc) == num;
            assert(same_unit(row as int, col as int, rr, cc));
        }
    }
    !in_col && !in_row && !in_box
}

/// The first empty cell in row-major order, or (9, 9) when every cell is
/// filled.
pub fn find_empty(grid: Grid) -> (r: (usize, usize))
    ensures
        (r.0 == 9 && r.1 == 9) == complete(grid),
        !complete(grid) ==> r.0 < 9 && r.1 < 9 && cell(grid, r.0 as int, r.1 as int) == 0,
        forall|rr: int, cc: int|
            on_grid(rr, cc) && (rr < r.0 || (rr == r.0 && cc < r.1)) ==> #[trigger] cell(grid, rr, cc) != 0,
{
    let mut row: usize = 0;
    while row < 9
        invariant
            row <= 9,
            forall|rr: int, cc: int| on_grid(rr, cc) && rr < row ==> #[trigger] cell(grid, rr, cc) != 0,
        decreases 9 - row,
    {
        let mut col: usize = 0;
        while col < 9
            invariant
                row < 9,
                col <= 9,
                forall|rr: int, cc: int|
                    on_grid(rr, cc) && (rr < row || (rr == row && cc < col)) ==> #[trigger] cell(grid, rr, cc)
                        != 0,
            decreases 9 - col,
        {
            if grid[row][col] == 0 {
                assert(cell(grid, row as int, col as int) == 0);
                return (row, col);
            }
            col = col + 1;
        }
        row = row + 1;
    }
    (9, 9)
}

fn cell_clash_free(grid: Grid, r1: usize, c1: usize) -> (r: bool)
    requires
        r1 < 9,
        c1 < 9,
    ensures
        r == clash_free_at(grid, r1 as int, c1 as int),
{
    let v = grid[r1][c1];
    if v < 0 || v > 9 {
        return false;
    }
    if v == 0 {
        return true;
    }
    let mut r2: usize = 0;
    while r2 < 9
        invariant
            r1 < 9,
            c1 < 9,
            r2 <= 9,
            v == cell(grid, r1 as int, c1 as int),
            1 <= v <= 9,
            forall|a: int, b: int|
                on_grid(a, b) && a < r2 && (r1 != a || c1 != b) && same_unit(r1 as int, c1 as int, a, b)
                    ==> v != #[trigger] cell(grid, a, b),
        decreases 9 - r2,
    {
        let mut c2: usize = 0;
        while c2 < 9
            invariant
                r1 < 9,
                c1 < 9,
                r2 < 9,
                c2 <= 9,
                v == cell(grid, r1 as int, c1 as int),
                1 <= v <= 9,
                forall|a: int, b: int|
                    on_grid(a, b) && (a < r2 || (a == r2 && b < c2)) && (r1 != a || c1 != b) && same_unit(
                        r1 as int,
                        c1 as int,
                        a,
                        b,
                    ) ==> v != #[trigger] cell(grid, a, b),
            decreases 9 - c2,
        {
            let shared = r1 == r2 || c1 == c2 || (r1 / 3 == r2 / 3 && c1 / 3 == c2 / 3);
            if (r1 != r2 || c1 != c2) && shared && grid[r2][c2] == v {
                assert(cell(grid, r2 as int, c2 as int) == v);
                return false;
            }
            c2 = c2 + 1;
        }
        r2 = r2 + 1;
    }
    true
}

/// Whether `grid` holds only 0 to 9 and repeats no digit within a row, a
/// column or a box: what `solve_sudoku` asks of its input.
pub fn is_valid_input(grid: Grid) -> (r: bool)
    ensures
        r == (well_formed(grid) && consistent(grid)),
{
    let mut r1: usize = 0;
    while r1 < 9
        invariant
            r1 <= 9,
            forall|a: int, b: int| on_grid(a, b) && a < r1 ==> #[trigger] clash_free_at(grid, a, b),
        decreases 9 - r1,
    {
        let mut c1: usize = 0;
        while c1 < 9
            invariant
                r1 < 9,
                c1 <= 9,
                forall|a: int, b: int|
                    on_grid(a, b) && (a < r1 || (a == r1 && b < c1)) ==> #[trigger] clash_free_at(grid, a, b),
            decreases 9 - c1,
        {
            if !cell_clash_free(grid, r1, c1) {
                proof {
                    if consistent(grid) && well_formed(grid) {
                        assert(clash_free_at(grid, r1 as int, c1 as int));
                    }
                }
                return false;
            }
            c1 = c1 + 1;
        }
        r1 = r1 + 1;
    }
    assert forall|r: int, c: int| on_grid(r, c) implies 0 <= #[trigger] cell(grid, r, c) <= 9 by {
        assert(clash_free_at(grid, r, c));
    }
    assert forall|a: int, b: int, x: int, y: int|
        on_grid(a, b) && on_grid(x, y) && (a != x || b != y) && same_unit(a, b, x, y) && cell(grid, a, b) != 0
            implies #[trigger] cell(grid, a, b) != #[trigger] cell(grid, x, y) by {
        assert(clash_free_at(grid, a, b));
    }
    true
}

/// Depth-first search: fill the first empty cell with each digit that fits,
/// in ascending order, and go on with the rest.
fn search(grid: Grid) -> (res: (bool, Grid))
    requires
        well_formed(grid),
        consistent(grid),
    ensures
        res.0 == solvable(grid),
        res.0 ==> solved(res.1) && extends(res.1, grid),
        !res.0 ==> res.1 == grid,
        complete(grid) ==> res.0 && res.1 == grid,
    decreases grid_empties(grid, 9),
{
    let (row, col) = find_empty(grid);
    if row == 9 && col == 9 {
        assert(solved(grid) && extends(grid, grid));
        return (true, grid);
    }
    let mut num: i8 = 1;
    while num <= 9
        invariant
            1 <= num <= 10,
            row < 9,
            col < 9,
            cell(grid, row as int, col as int) == 0,
            well_formed(grid),
            consistent(grid),
            forall|d: int| 1 <= d < num ==> !#[trigger] completion_with(grid, row as int, col as int, d),
        decreases 10 - num,
    {
        if is_location_safe(grid, row, col, num) {
            let mut next = grid;
            next[row][col] = num;
            proof {
                assert(placed(grid, next, row as int, col as int, num as int));
                lemma_place(grid, next, row as int, col as int, num as int);
            }
            let (ok, done) = search(next);
            if ok {
                return (true, done);
            }
            proof {
                if completion_with(grid, row as int, col as int, num as int) {
                    let s = choose|s: Grid| solved(s) && extends(s, grid) && #[trigger] cell(s, row as int, col as int) == num;
                    assert(extends(s, next));
                }
            }
        } else {
            proof {
                if completion_with(grid, row as int, col as int, num as int) {
                    let s = choose|s: Grid| solved(s) && extends(s, grid) && #[trigger] cell(s, row as int, col as int) == num;
                    let (r2, c2) = choose|r2: int, c2: int|
                        on_grid(r2, c2) && same_unit(row as int, col as int, r2, c2) && #[trigger] cell(grid, r2, c2) == num;
                    assert(cell(s, r2, c2) == num);
                    assert(cell(s, row as int, col as int) != cell(s, r2, c2));
                }
            }
        }
        num = num + 1;
    }
    proof {
        if solvable(grid) {
            let s = choose|s: Grid| solved(s) && extends(s, grid);
            let d = cell(s, row as int, col as int);
            assert(completion_with(grid, row as int, col as int, d));
        }
    }
    (false, grid)
}

/// Solves `grid` in place. On success the grid is a full solution that keeps
/// every given digit; on failure it is left as it was. The search is
/// exhaustive, so it fails exactly when no solution exists.
pub fn solve_sudoku(grid: &mut Grid) -> (r: bool)
    requires
        well_formed(*old(grid)),
        consistent(*old(grid)),
    ensures
        r == solvable(*old(grid)),
        r ==> solved(*final(grid)) && extends(*final(grid), *old(grid)),
        !r ==> *final(grid) == *old(grid),
        complete(*old(grid)) ==> r && *final(grid) == *old(grid),
{
    let (ok, done) = search(*grid);
    *grid = done;
    ok
}

} // verus!
