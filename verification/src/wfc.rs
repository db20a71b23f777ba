//! Solution generation by staged collapse (corners, then edges, then face interiors),
//! and the sudoku checks it relies on.

use rand::rngs::StdRng;
use vstd::prelude::*;

use crate::cube::{are_related, constrained, coord_from_slot, face_coords_of, CubeCoord, Face};
use crate::digits::{lookup, DigitMap};
use crate::random::{lemma_shuffled_same_members, shuffle};

verus! {

/// A 9×9 face, indexed `[v][u]`; `0` marks an empty cell.
pub type FaceGrid = [[u8; 9]; 9];

/// The nonzero values of `s` are pairwise distinct.
pub open spec fn distinct_nonzero(s: Seq<u8>) -> bool {
    forall|a: int, b: int|
        0 <= a < s.len() && 0 <= b < s.len() && a != b && s[a] != 0 ==> #[trigger] s[a]
            != #[trigger] s[b]
}

/// Row `v` of a face grid, by increasing `u`.
pub open spec fn row_seq(g: FaceGrid, v: int) -> Seq<u8> {
    g[v]@
}

/// Column `u` of a face grid, by increasing `v`.
pub open spec fn col_seq(g: FaceGrid, u: int) -> Seq<u8> {
    Seq::new(9, |v: int| g[v][u])
}

/// Box `k` (`k / 3` box row, `k % 3` box column) of a face grid, row by row.
pub open spec fn box_seq(g: FaceGrid, k: int) -> Seq<u8> {
    Seq::new(9, |p: int| g[(k / 3) * 3 + p / 3][(k % 3) * 3 + p % 3])
}

/// No row, column or box of the grid repeats a nonzero value.
pub open spec fn units_distinct(g: FaceGrid) -> bool {
    &&& forall|v: int| 0 <= v < 9 ==> distinct_nonzero(#[trigger] row_seq(g, v))
    &&& forall|u: int| 0 <= u < 9 ==> distinct_nonzero(#[trigger] col_seq(g, u))
    &&& forall|k: int| 0 <= k < 9 ==> distinct_nonzero(#[trigger] box_seq(g, k))
}

/// Every entry is at most 9 (a digit or empty).
pub open spec fn entries_small(g: FaceGrid) -> bool {
    forall|v: int, u: int| 0 <= v < 9 && 0 <= u < 9 ==> #[trigger] g[v][u] <= 9
}

/// Every entry is a digit 1-9.
pub open spec fn full(g: FaceGrid) -> bool {
    forall|v: int, u: int| 0 <= v < 9 && 0 <= u < 9 ==> 1 <= #[trigger] g[v][u] <= 9
}

/// `h` keeps every filled entry of `g`.
pub open spec fn extends(h: FaceGrid, g: FaceGrid) -> bool {
    forall|v: int, u: int| 0 <= v < 9 && 0 <= u < 9 && g[v][u] != 0 ==> #[trigger] h[v][u] == g[v][u]
}

/// `h` is a solved sudoku that keeps every filled entry of `g`.
pub open spec fn is_completion(h: FaceGrid, g: FaceGrid) -> bool {
    full(h) && units_distinct(h) && extends(h, g)
}

/// Whether nine values, each at most 9, repeat a nonzero value.
fn has_nonzero_repeat(vals: &[u8; 9]) -> (r: bool)
    requires
        forall|a: int| 0 <= a < 9 ==> #[trigger] vals@[a] <= 9,
    ensures
        r == !distinct_nonzero(vals@),
{
    let mut seen = [false; 10];
    let mut a: usize = 0;
    while a < 9
        invariant
            a <= 9,
            forall|i: int| 0 <= i < 9 ==> #[trigger] vals@[i] <= 9,
            forall|x: int|
                1 <= x <= 9 ==> (#[trigger] seen@[x] <==> exists|i: int| 0 <= i < a && vals@[i] == x),
            forall|i: int, j: int|
                0 <= i < a && 0 <= j < a && i != j && vals@[i] != 0 ==> #[trigger] vals@[i]
                    != #[trigger] vals@[j],
        decreases 9 - a,
    {
        let val = vals[a] as usize;
        let ghost seen0 = seen@;
        if val != 0 {
            if seen[val] {
                proof {
                    let i = choose|i: int| 0 <= i < a && vals@[i] == val;
                    assert(vals@[i] == vals@[a as int]);
                }
                return true;
            }
            seen[val] = true;
        }
        proof {
            assert forall|x: int| 1 <= x <= 9 implies (#[trigger] seen@[x] <==> exists|i: int|
                0 <= i < a + 1 && vals@[i] == x) by {
                if x == val && val != 0 {
                    assert(vals@[a as int] == x);
                }
                if exists|i: int| 0 <= i < a + 1 && vals@[i] == x {
                    let i = choose|i: int| 0 <= i < a + 1 && vals@[i] == x;
                    if i < a {
                    }
                }
            }
            assert forall|i: int, j: int|
                0 <= i < a + 1 && 0 <= j < a + 1 && i != j && vals@[i] != 0 implies #[trigger] vals@[i]
                != #[trigger] vals@[j] by {
                if i == a && j < a {
                    assert(!seen0[val as int]);
                    if vals@[j] == vals@[i] {
                        assert(exists|k: int| 0 <= k < a && vals@[k] == val);
                    }
                }
                if j == a && i < a {
                    if vals@[j] == vals@[i] {
                        assert(exists|k: int| 0 <= k < a && vals@[k] == vals@[i]);
                    }
                }
            }
        }
        a += 1;
    }
    false
}

/// Column `u` of the grid.
fn col_of(g: &FaceGrid, u: usize) -> (r: [u8; 9])
    requires
        u < 9,
    ensures
        r@ == col_seq(*g, u as int),
{
    let mut r = [0u8; 9];
    for i in 0..9usize
        invariant
            u < 9,
            forall|j: int| 0 <= j < i ==> #[trigger] r@[j] == g[j][u as int],
    {
        r[i] = g[i][u];
    }
    assert(r@ =~= col_seq(*g, u as int));
    r
}

/// Box `k` of the grid, row by row.
fn box_of(g: &FaceGrid, k: usize) -> (r: [u8; 9])
    requires
        k < 9,
    ensures
        r@ == box_seq(*g, k as int),
{
    let mut r = [0u8; 9];
    for p in 0..9usize
        invariant
            k < 9,
            forall|j: int|
                0 <= j < p ==> #[trigger] r@[j] == g[(k / 3) * 3 + j / 3][(k % 3) * 3 + j % 3],
    {
        r[p] = g[(k / 3) * 3 + p / 3][(k % 3) * 3 + p % 3];
    }
    assert(r@ =~= box_seq(*g, k as int));
    r
}

/// Whether no row, column or 3×3 box of a partially filled face repeats a digit
/// (empty cells, `0`, are ignored).
pub fn is_partial_valid(grid: &FaceGrid) -> (r: bool)
    requires
        entries_small(*grid),
    ensures
        r == units_distinct(*grid),
{
    for v in 0..9usize
        invariant
            entries_small(*grid),
            forall|w: int| 0 <= w < v ==> distinct_nonzero(#[trigger] row_seq(*grid, w)),
    {
        let row = grid[v];
        if has_nonzero_repeat(&row) {
            assert(!distinct_nonzero(row_seq(*grid, v as int)));
            assert(!units_distinct(*grid));
            return false;
        }
    }
    for u in 0..9usize
        invariant
            entries_small(*grid),
            forall|w: int| 0 <= w < 9 ==> distinct_nonzero(#[trigger] row_seq(*grid, w)),
            forall|w: int| 0 <= w < u ==> distinct_nonzero(#[trigger] col_seq(*grid, w)),
    {
        let col = col_of(grid, u);
        if has_nonzero_repeat(&col) {
            assert(!distinct_nonzero(col_seq(*grid, u as int)));
            assert(!units_distinct(*grid));
            return false;
        }
    }
    for k in 0..9usize
        invariant
            entries_small(*grid),
            forall|w: int| 0 <= w < 9 ==> distinct_nonzero(#[trigger] row_seq(*grid, w)),
            forall|w: int| 0 <= w < 9 ==> distinct_nonzero(#[trigger] col_seq(*grid, w)),
            forall|w: int| 0 <= w < k ==> distinct_nonzero(#[trigger] box_seq(*grid, w)),
    {
        let bx = box_of(grid, k);
        proof {
            assert forall|p: int| 0 <= p < 9 implies #[trigger] bx@[p] <= 9 by {
                assert(bx@[p] == grid[(k / 3) * 3 + p / 3][(k % 3) * 3 + p % 3]);
            }
        }
        if has_nonzero_repeat(&bx) {
            assert(!distinct_nonzero(box_seq(*grid, k as int)));
            assert(!units_distinct(*grid));
            return false;
        }
    }
    true
}

/// Placing `val` at `(v, u)` repeats no digit of its row, column or box.
pub open spec fn safe_at(g: FaceGrid, v: int, u: int, val: u8) -> bool {
    &&& forall|x: int| 0 <= x < 9 ==> #[trigger] g[v][x] != val
    &&& forall|y: int| 0 <= y < 9 ==> #[trigger] g[y][u] != val
    &&& forall|p: int|
        0 <= p < 9 ==> #[trigger] g[(v / 3) * 3 + p / 3][(u / 3) * 3 + p % 3] != val
}

/// Whether `val` can be written at `(v, u)` without repeating a digit of its row, column
/// or 3×3 box.
pub fn is_safe(grid: &FaceGrid, v: usize, u: usize, val: u8) -> (r: bool)
    requires
        v < 9,
        u < 9,
    ensures
        r == safe_at(*grid, v as int, u as int, val),
{
    for x in 0..9usize
        invariant
            v < 9,
            forall|j: int| 0 <= j < x ==> #[trigger] grid[v as int][j] != val,
    {
        if grid[v][x] == val {
            return false;
        }
    }
    for y in 0..9usize
        invariant
            u < 9,
            forall|j: int| 0 <= j < y ==> #[trigger] grid[j][u as int] != val,
    {
        if grid[y][u] == val {
            return false;
        }
    }
    let bu = (u / 3) * 3;
    let bv = (v / 3) * 3;
    for p in 0..9usize
        invariant
            u < 9,
            v < 9,
            bu == (u / 3) * 3,
            bv == (v / 3) * 3,
            forall|j: int| 0 <= j < p ==> #[trigger] grid[(v / 3) * 3 + j / 3][(u / 3) * 3 + j % 3] != val,
    {
        if grid[bv + p / 3][bu + p % 3] == val {
            return false;
        }
    }
    true
}

/// The first empty cell in row-major order, as `(v, u)`.
pub fn find_empty(grid: &FaceGrid) -> (r: Option<(usize, usize)>)
    ensures
        match r {
            Some((v, u)) => v < 9 && u < 9 && grid[v as int][u as int] == 0 && forall|y: int, x: int|
                0 <= y < 9 && 0 <= x < 9 && (y < v || (y == v && x < u)) ==> #[trigger] grid[y][x]
                    != 0,
            None => forall|y: int, x: int| 0 <= y < 9 && 0 <= x < 9 ==> #[trigger] grid[y][x] != 0,
        },
{
    for v in 0..9usize
        invariant
            forall|y: int, x: int| 0 <= y < v && 0 <= x < 9 ==> #[trigger] grid[y][x] != 0,
    {
        for u in 0..9usize
            invariant
                v < 9,
                forall|y: int, x: int| 0 <= y < v && 0 <= x < 9 ==> #[trigger] grid[y][x] != 0,
                forall|x: int| 0 <= x < u ==> #[trigger] grid[v as int][x] != 0,
        {
            if grid[v][u] == 0 {
                return Some((v, u));
            }
        }
    }
    None
}

/// Number of empty cells at flat positions `k..81`.
pub open spec fn empties_from(g: FaceGrid, k: int) -> nat
    decreases 81 - k,
{
    if k >= 81 || k < 0 {
        0
    } else {
        (if g[k / 9][k % 9] == 0 {
            1nat
        } else {
            0nat
        }) + empties_from(g, k + 1)
    }
}

/// Number of empty cells of the grid.
pub open spec fn empties(g: FaceGrid) -> nat {
    empties_from(g, 0)
}

/// `h` is `g` with `(v, u)` set to `val`.
pub open spec fn set_at(h: FaceGrid, g: FaceGrid, v: int, u: int, val: u8) -> bool {
    &&& h[v][u] == val
    &&& forall|y: int, x: int| 0 <= y < 9 && 0 <= x < 9 && !(y == v && x == u) ==> #[trigger] h[y][x] == g[y][x]
}

/// Filling an empty cell leaves fewer empty cells.
proof fn lemma_fill_decreases(h: FaceGrid, g: FaceGrid, v: int, u: int, val: u8, k: int)
    requires
        0 <= v < 9,
        0 <= u < 9,
        g[v][u] == 0,
        val != 0,
        set_at(h, g, v, u, val),
        0 <= k <= 81,
    ensures
        k <= v * 9 + u ==> empties_from(h, k) + 1 == empties_from(g, k),
        k > v * 9 + u ==> empties_from(h, k) == empties_from(g, k),
    decreases 81 - k,
{
    if k < 81 {
        lemma_fill_decreases(h, g, v, u, val, k + 1);
        assert((k / 9 == v && k % 9 == u) <==> k == v * 9 + u) by (nonlinear_arith)
            requires 0 <= k < 81, 0 <= v < 9, 0 <= u < 9;
        assert(0 <= k / 9 < 9 && 0 <= k % 9 < 9) by (nonlinear_arith)
            requires 0 <= k < 81;
    }
}

/// A completion of `g` fills `(v, u)` with a value that is safe in `g`.
proof fn lemma_completion_value_safe(h: FaceGrid, g: FaceGrid, v: int, u: int)
    requires
        is_completion(h, g),
        0 <= v < 9,
        0 <= u < 9,
        g[v][u] == 0,
    ensures
        safe_at(g, v, u, h[v][u]),
{
    let val = h[v][u];
    assert forall|x: int| 0 <= x < 9 implies #[trigger] g[v][x] != val by {
        if g[v][x] != 0 {
            assert(x != u);
            assert(row_seq(h, v)[x] == h[v][x]);
            assert(row_seq(h, v)[u] == h[v][u]);
            assert(distinct_nonzero(row_seq(h, v)));
        }
    }
    assert forall|y: int| 0 <= y < 9 implies #[trigger] g[y][u] != val by {
        if g[y][u] != 0 {
            assert(y != v);
            assert(col_seq(h, u)[y] == h[y][u]);
            assert(col_seq(h, u)[v] == h[v][u]);
            assert(distinct_nonzero(col_seq(h, u)));
        }
    }
    let k = (v / 3) * 3 + u / 3;
    assert(k / 3 == v / 3 && k % 3 == u / 3 && 0 <= k < 9) by (nonlinear_arith)
        requires k == (v / 3) * 3 + u / 3, 0 <= v < 9, 0 <= u < 9;
    let q = (v % 3) * 3 + u % 3;
    assert(q / 3 == v % 3 && q % 3 == u % 3 && 0 <= q < 9) by (nonlinear_arith)
        requires q == (v % 3) * 3 + u % 3, 0 <= v < 9, 0 <= u < 9;
    assert((v / 3) * 3 + q / 3 == v && (u / 3) * 3 + q % 3 == u) by (nonlinear_arith)
        requires q / 3 == v % 3, q % 3 == u % 3, 0 <= v < 9, 0 <= u < 9;
    assert forall|p: int| 0 <= p < 9 implies #[trigger] g[(v / 3) * 3 + p / 3][(u / 3) * 3 + p % 3]
        != val by {
        let y = (v / 3) * 3 + p / 3;
        let x = (u / 3) * 3 + p % 3;
        assert(0 <= y < 9 && 0 <= x < 9) by (nonlinear_arith)
            requires y == (v / 3) * 3 + p / 3, x == (u / 3) * 3 + p % 3, 0 <= v < 9, 0 <= u < 9, 0 <= p < 9;
        if g[y][x] != 0 {
            assert(p != q);
            assert(box_seq(h, k)[p] == h[y][x]);
            assert(box_seq(h, k)[q] == h[v][u]);
            assert(distinct_nonzero(box_seq(h, k)));
        }
    }
}

/// A digit that is safe at an empty cell keeps every unit free of repeats.
proof fn lemma_safe_fill_keeps_distinct(h: FaceGrid, g: FaceGrid, v: int, u: int, val: u8)
    requires
        units_distinct(g),
        0 <= v < 9,
        0 <= u < 9,
        g[v][u] == 0,
        safe_at(g, v, u, val),
        set_at(h, g, v, u, val),
    ensures
        units_distinct(h),
{
    assert forall|w: int| 0 <= w < 9 implies distinct_nonzero(#[trigger] row_seq(h, w)) by {
        assert(distinct_nonzero(row_seq(g, w)));
        assert forall|a: int, b: int|
            0 <= a < 9 && 0 <= b < 9 && a != b && row_seq(h, w)[a] != 0 implies #[trigger] row_seq(h, w)[a]
            != #[trigger] row_seq(h, w)[b] by {
            assert(row_seq(g, w)[a] == g[w][a] && row_seq(g, w)[b] == g[w][b]);
            if w == v && a == u {
                assert(g[w][b] != val);
            } else if w == v && b == u {
                assert(g[w][a] != val);
            }
        }
    }
    assert forall|w: int| 0 <= w < 9 implies distinct_nonzero(#[trigger] col_seq(h, w)) by {
        assert(distinct_nonzero(col_seq(g, w)));
        assert forall|a: int, b: int|
            0 <= a < 9 && 0 <= b < 9 && a != b && col_seq(h, w)[a] != 0 implies #[trigger] col_seq(h, w)[a]
            != #[trigger] col_seq(h, w)[b] by {
            assert(col_seq(g, w)[a] == g[a][w] && col_seq(g, w)[b] == g[b][w]);
            if w == u && a == v {
                assert(g[b][w] != val);
            } else if w == u && b == v {
                assert(g[a][w] != val);
            }
        }
    }
    assert forall|k: int| 0 <= k < 9 implies distinct_nonzero(#[trigger] box_seq(h, k)) by {
        assert(distinct_nonzero(box_seq(g, k)));
        assert forall|a: int, b: int|
            0 <= a < 9 && 0 <= b < 9 && a != b && box_seq(h, k)[a] != 0 implies #[trigger] box_seq(h, k)[a]
            != #[trigger] box_seq(h, k)[b] by {
            let ya = (k / 3) * 3 + a / 3;
            let xa = (k % 3) * 3 + a % 3;
            let yb = (k / 3) * 3 + b / 3;
            let xb = (k % 3) * 3 + b % 3;
            assert(0 <= ya < 9 && 0 <= xa < 9 && 0 <= yb < 9 && 0 <= xb < 9) by (nonlinear_arith)
                requires ya == (k / 3) * 3 + a / 3, xa == (k % 3) * 3 + a % 3, yb == (k / 3) * 3 + b / 3,
                    xb == (k % 3) * 3 + b % 3, 0 <= k < 9, 0 <= a < 9, 0 <= b < 9;
            assert((ya == yb && xa == xb) ==> a == b) by (nonlinear_arith)
                requires ya == (k / 3) * 3 + a / 3, xa == (k % 3) * 3 + a % 3, yb == (k / 3) * 3 + b / 3,
                    xb == (k % 3) * 3 + b % 3, 0 <= a < 9, 0 <= b < 9;
            assert(box_seq(g, k)[a] == g[ya][xa] && box_seq(g, k)[b] == g[yb][xb]);
            assert(box_seq(h, k)[a] == h[ya][xa] && box_seq(h, k)[b] == h[yb][xb]);
            if (ya == v && xa == u) || (yb == v && xb == u) {
                assert(v / 3 == k / 3 && u / 3 == k % 3) by (nonlinear_arith)
                    requires (ya == v && xa == u) || (yb == v && xb == u), ya == (k / 3) * 3 + a / 3,
                        xa == (k % 3) * 3 + a % 3, yb == (k / 3) * 3 + b / 3, xb == (k % 3) * 3 + b % 3,
                        0 <= a < 9, 0 <= b < 9, 0 <= k < 9;
                if ya == v && xa == u {
                    assert(g[(v / 3) * 3 + b / 3][(u / 3) * 3 + b % 3] != val);
                } else {
                    assert(g[(v / 3) * 3 + a / 3][(u / 3) * 3 + a % 3] != val);
                }
            }
        }
    }
}

/// No cell is empty.
pub open spec fn no_empty(g: FaceGrid) -> bool {
    forall|y: int, x: int| 0 <= y < 9 && 0 <= x < 9 ==> #[trigger] g[y][x] != 0
}

/// Fills the empty cells of a face by randomized backtracking.
/// On success every cell is filled, the filled cells of the input are kept, the new values
/// are digits and, when the input repeated no digit in a unit, the result is a solved
/// sudoku. On failure the grid is left as it was and no solved sudoku extends it.
pub fn solve_sudoku(grid: &mut FaceGrid, rng: &mut StdRng) -> (r: bool)
    requires
        entries_small(*old(grid)),
    ensures
        r ==> no_empty(*final(grid)) && entries_small(*final(grid)) && extends(*final(grid), *old(grid))
            && (units_distinct(*old(grid)) ==> is_completion(*final(grid), *old(grid))),
        !r ==> *final(grid) == *old(grid) && forall|h: FaceGrid| !is_completion(h, *old(grid)),
    decreases empties(*old(grid)),
{
    let ghost g0 = *grid;
    match find_empty(grid) {
        None => {
            proof {
                assert forall|y: int, x: int| 0 <= y < 9 && 0 <= x < 9 implies 1 <= #[trigger] grid[y][x] <= 9 by {
                    assert(grid[y][x] != 0);
                }
            }
            true
        },
        Some((v, u)) => {
            let mut candidates: Vec<u8> = Vec::new();
            let mut val: u8 = 1;
            while val <= 9
                invariant
                    1 <= val <= 10,
                    v < 9,
                    u < 9,
                    *grid == g0,
                    forall|x: u8| candidates@.contains(x) <==> (1 <= x < val && safe_at(g0, v as int, u as int, x)),
                decreases 10 - val,
            {
                let ghost c0 = candidates@;
                if is_safe(grid, v, u, val) {
                    candidates.push(val);
                    proof {
                        assert forall|x: u8| candidates@.contains(x) <==> (1 <= x < val + 1 && safe_at(g0, v as int, u as int, x)) by {
                            if x == val {
                                assert(candidates@[c0.len() as int] == x);
                            }
                            if c0.contains(x) {
                                let k = choose|k: int| 0 <= k < c0.len() && c0[k] == x;
                                assert(candidates@[k] == x);
                            }
                            if candidates@.contains(x) {
                                let k = choose|k: int| 0 <= k < candidates@.len() && candidates@[k] == x;
                                if k < c0.len() {
                                    assert(c0[k] == x);
                                }
                            }
                        }
                    }
                } else {
                    proof {
                        assert forall|x: u8| candidates@.contains(x) <==> (1 <= x < val + 1 && safe_at(g0, v as int, u as int, x)) by {
                            if x == val {
                                assert(!c0.contains(x));
                            }
                        }
                    }
                }
                val += 1;
            }
            let ghost before = candidates@;
            shuffle(&mut candidates, rng);
            proof {
                lemma_shuffled_same_members(before, candidates@);
            }
            let n = candidates.len();
            let mut i: usize = 0;
            while i < n
                invariant
                    n == candidates@.len(),
                    i <= n,
                    v < 9,
                    u < 9,
                    *grid == g0,
                    g0 == *old(grid),
                    g0[v as int][u as int] == 0,
                    entries_small(g0),
                    forall|x: u8| candidates@.contains(x) <==> (1 <= x <= 9 && safe_at(g0, v as int, u as int, x)),
                    forall|h: FaceGrid, j: int| #![trigger is_completion(h, g0), candidates@[j]] 0 <= j < i && is_completion(h, g0) ==> h[v as int][u as int] != candidates@[j],
                decreases n - i,
            {
                let c = candidates[i];
                assert(candidates@.contains(c));
                grid[v][u] = c;
                let ghost g1 = *grid;
                assert(set_at(g1, g0, v as int, u as int, c));
                proof {
                    lemma_fill_decreases(g1, g0, v as int, u as int, c, 0);
                    assert forall|y: int, x: int| 0 <= y < 9 && 0 <= x < 9 implies #[trigger] g1[y][x] <= 9 by {
                        if !(y == v && x == u) {
                            assert(g1[y][x] == g0[y][x]);
                        }
                    }
                }
                if solve_sudoku(grid, rng) {
                    proof {
                        assert forall|y: int, x: int| 0 <= y < 9 && 0 <= x < 9 && g0[y][x] != 0 implies #[trigger] grid[y][x] == g0[y][x] by {
                            assert(g1[y][x] == g0[y][x]);
                        }
                        if units_distinct(g0) {
                            lemma_safe_fill_keeps_distinct(g1, g0, v as int, u as int, c);
                            assert forall|y: int, x: int| 0 <= y < 9 && 0 <= x < 9 implies 1 <= #[trigger] grid[y][x] <= 9 by {
                                assert(grid[y][x] != 0);
                            }
                        }
                    }
                    return true;
                }
                proof {
                    assert forall|h: FaceGrid, j: int| #![trigger is_completion(h, g0), candidates@[j]] 0 <= j < i + 1 && is_completion(h, g0) implies h[v as int][u as int] != candidates@[j] by {
                        if j == i && h[v as int][u as int] == c {
                            assert forall|y: int, x: int| 0 <= y < 9 && 0 <= x < 9 && g1[y][x] != 0 implies #[trigger] h[y][x] == g1[y][x] by {
                                if !(y == v && x == u) {
                                    assert(g1[y][x] == g0[y][x]);
                                }
                            }
                            assert(is_completion(h, g1));
                        }
                    }
                }
                grid[v][u] = 0;
                proof {
                    assert(*grid =~= g0) by {
                        assert forall|y: int| 0 <= y < 9 implies grid[y] =~= g0[y] by {
                            assert forall|x: int| 0 <= x < 9 implies grid[y][x] == g0[y][x] by {}
                        }
                    }
                }
                i += 1;
            }
            proof {
                assert forall|h: FaceGrid| !is_completion(h, g0) by {
                    if is_completion(h, g0) {
                        lemma_completion_value_safe(h, g0, v as int, u as int);
                        let hv = h[v as int][u as int];
                        assert(1 <= hv <= 9);
                        assert(candidates@.contains(hv));
                        let j = choose|j: int| 0 <= j < candidates@.len() && candidates@[j] == hv;
                    }
                }
            }
            false
        },
    }
}

/// The value a map gives `c`, `0` when it gives none.
pub open spec fn value_or_zero(m: Map<CubeCoord, u8>, c: CubeCoord) -> u8 {
    match lookup(m, c) {
        Some(v) => v,
        None => 0,
    }
}

/// `g` holds, at `[v][u]`, the value of `m` at local position `(u, v)` of face `f`.
pub open spec fn is_face_grid(g: FaceGrid, m: Map<CubeCoord, u8>, f: Face) -> bool {
    forall|v: int, u: int|
        0 <= v < 9 && 0 <= u < 9 ==> #[trigger] g[v][u] == value_or_zero(m, f.cube_at(u as u8, v as u8))
}

/// The values of `m` on face `f`, as a face grid (`0` where `m` gives none).
pub fn face_grid(face: Face, m: &DigitMap) -> (g: FaceGrid)
    ensures
        is_face_grid(g, m@, face),
{
    let mut grid = [[0u8; 9]; 9];
    for v in 0..9u8
        invariant
            forall|y: int, x: int|
                0 <= y < v && 0 <= x < 9 ==> #[trigger] grid[y][x] == value_or_zero(m@, face.cube_at(x as u8, y as u8)),
            forall|y: int, x: int| v <= y < 9 && 0 <= x < 9 ==> #[trigger] grid[y][x] == 0,
    {
        for u in 0..9u8
            invariant
                v < 9,
                forall|y: int, x: int|
                    0 <= y < v && 0 <= x < 9 ==> #[trigger] grid[y][x] == value_or_zero(m@, face.cube_at(x as u8, y as u8)),
                forall|x: int| 0 <= x < u ==> #[trigger] grid[v as int][x] == value_or_zero(m@, face.cube_at(x as u8, v)),
                forall|y: int, x: int| v < y < 9 && 0 <= x < 9 ==> #[trigger] grid[y][x] == 0,
                forall|x: int| u <= x < 9 ==> #[trigger] grid[v as int][x] == 0,
        {
            let coord = face.to_cube(u, v);
            if let Some(val) = m.get(&coord) {
                grid[v as usize][u as usize] = val;
            }
        }
    }
    grid
}

/// All nine values are digits 1-9 and pairwise distinct.
pub open spec fn complete_unit(s: Seq<u8>) -> bool {
    &&& forall|a: int| 0 <= a < s.len() ==> 1 <= #[trigger] s[a] <= 9
    &&& distinct_nonzero(s)
}

/// Every row, column and box of the grid holds each digit 1-9 exactly once.
pub open spec fn grid_solved(g: FaceGrid) -> bool {
    &&& forall|v: int| 0 <= v < 9 ==> complete_unit(#[trigger] row_seq(g, v))
    &&& forall|u: int| 0 <= u < 9 ==> complete_unit(#[trigger] col_seq(g, u))
    &&& forall|k: int| 0 <= k < 9 ==> complete_unit(#[trigger] box_seq(g, k))
}

/// A solved face grid is a solved sudoku in the sense of `full` and `units_distinct`.
pub proof fn lemma_grid_solved_iff(g: FaceGrid)
    ensures
        grid_solved(g) <==> (full(g) && units_distinct(g)),
{
    if grid_solved(g) {
        assert forall|v: int, u: int| 0 <= v < 9 && 0 <= u < 9 implies 1 <= #[trigger] g[v][u] <= 9 by {
            assert(row_seq(g, v)[u] == g[v][u]);
        }
    }
    if full(g) && units_distinct(g) {
        assert forall|v: int| 0 <= v < 9 implies complete_unit(#[trigger] row_seq(g, v)) by {}
        assert forall|u: int| 0 <= u < 9 implies complete_unit(#[trigger] col_seq(g, u)) by {}
        assert forall|k: int| 0 <= k < 9 implies complete_unit(#[trigger] box_seq(g, k)) by {
            assert forall|p: int| 0 <= p < 9 implies 1 <= #[trigger] box_seq(g, k)[p] <= 9 by {
                let y = (k / 3) * 3 + p / 3;
                let x = (k % 3) * 3 + p % 3;
                assert(0 <= y < 9 && 0 <= x < 9) by (nonlinear_arith)
                    requires y == (k / 3) * 3 + p / 3, x == (k % 3) * 3 + p % 3, 0 <= k < 9, 0 <= p < 9;
                assert(box_seq(g, k)[p] == g[y][x]);
            }
        }
    }
}

/// Whether nine values are the digits 1-9 each once.
fn unit_complete(vals: &[u8; 9]) -> (r: bool)
    ensures
        r == complete_unit(vals@),
{
    for a in 0..9usize
        invariant
            forall|i: int| 0 <= i < a ==> 1 <= #[trigger] vals@[i] <= 9,
    {
        if vals[a] < 1 || vals[a] > 9 {
            return false;
        }
    }
    !has_nonzero_repeat(vals)
}

/// Whether every row, column and box of a face grid holds the digits 1-9 once each.
fn grid_is_solved(g: &FaceGrid) -> (r: bool)
    ensures
        r == grid_solved(*g),
{
    for v in 0..9usize
        invariant
            forall|w: int| 0 <= w < v ==> complete_unit(#[trigger] row_seq(*g, w)),
    {
        let row = g[v];
        if !unit_complete(&row) {
            assert(!complete_unit(row_seq(*g, v as int)));
            return false;
        }
    }
    for u in 0..9usize
        invariant
            forall|w: int| 0 <= w < 9 ==> complete_unit(#[trigger] row_seq(*g, w)),
            forall|w: int| 0 <= w < u ==> complete_unit(#[trigger] col_seq(*g, w)),
    {
        let col = col_of(g, u);
        if !unit_complete(&col) {
            assert(!complete_unit(col_seq(*g, u as int)));
            return false;
        }
    }
    for k in 0..9usize
        invariant
            forall|w: int| 0 <= w < 9 ==> complete_unit(#[trigger] row_seq(*g, w)),
            forall|w: int| 0 <= w < 9 ==> complete_unit(#[trigger] col_seq(*g, w)),
            forall|w: int| 0 <= w < k ==> complete_unit(#[trigger] box_seq(*g, w)),
    {
        let bx = box_of(g, k);
        if !unit_complete(&bx) {
            assert(!complete_unit(box_seq(*g, k as int)));
            return false;
        }
    }
    true
}

/// Row `v` of face `f` as `m` fills it (`0` where `m` gives no value).
pub open spec fn face_row(m: Map<CubeCoord, u8>, f: Face, v: int) -> Seq<u8> {
    Seq::new(9, |u: int| value_or_zero(m, f.cube_at(u as u8, v as u8)))
}

/// Column `u` of face `f` as `m` fills it.
pub open spec fn face_col(m: Map<CubeCoord, u8>, f: Face, u: int) -> Seq<u8> {
    Seq::new(9, |v: int| value_or_zero(m, f.cube_at(u as u8, v as u8)))
}

/// Box `k` of face `f` as `m` fills it, row by row.
pub open spec fn face_box(m: Map<CubeCoord, u8>, f: Face, k: int) -> Seq<u8> {
    Seq::new(
        9,
        |p: int| value_or_zero(m, f.cube_at(((k % 3) * 3 + p % 3) as u8, ((k / 3) * 3 + p / 3) as u8)),
    )
}

/// No row, column or box of face `f`, as `m` fills it, repeats a digit.
pub open spec fn face_units_distinct(m: Map<CubeCoord, u8>, f: Face) -> bool {
    &&& forall|v: int| 0 <= v < 9 ==> distinct_nonzero(#[trigger] face_row(m, f, v))
    &&& forall|u: int| 0 <= u < 9 ==> distinct_nonzero(#[trigger] face_col(m, f, u))
    &&& forall|k: int| 0 <= k < 9 ==> distinct_nonzero(#[trigger] face_box(m, f, k))
}

/// Every row, column and box of face `f`, as `m` fills it, holds each digit 1-9 once.
pub open spec fn face_solved(m: Map<CubeCoord, u8>, f: Face) -> bool {
    &&& forall|v: int| 0 <= v < 9 ==> complete_unit(#[trigger] face_row(m, f, v))
    &&& forall|u: int| 0 <= u < 9 ==> complete_unit(#[trigger] face_col(m, f, u))
    &&& forall|k: int| 0 <= k < 9 ==> complete_unit(#[trigger] face_box(m, f, k))
}

/// Every face of the cube, read from `m`, is a solved sudoku: each row, column and 3×3
/// box of each face holds each digit 1-9 exactly once.
pub open spec fn solution_valid(m: Map<CubeCoord, u8>) -> bool {
    forall|f: Face| face_solved(m, f)
}

/// The rows, columns and boxes of a face grid are those of the face it was read from.
pub proof fn lemma_face_grid_units(g: FaceGrid, m: Map<CubeCoord, u8>, f: Face)
    requires
        is_face_grid(g, m, f),
    ensures
        forall|v: int| 0 <= v < 9 ==> #[trigger] row_seq(g, v) == face_row(m, f, v),
        forall|u: int| 0 <= u < 9 ==> #[trigger] col_seq(g, u) == face_col(m, f, u),
        forall|k: int| 0 <= k < 9 ==> #[trigger] box_seq(g, k) == face_box(m, f, k),
        units_distinct(g) == face_units_distinct(m, f),
        grid_solved(g) == face_solved(m, f),
{
    assert forall|v: int| 0 <= v < 9 implies #[trigger] row_seq(g, v) == face_row(m, f, v) by {
        assert(row_seq(g, v) =~= face_row(m, f, v));
    }
    assert forall|u: int| 0 <= u < 9 implies #[trigger] col_seq(g, u) == face_col(m, f, u) by {
        assert(col_seq(g, u) =~= face_col(m, f, u));
    }
    assert forall|k: int| 0 <= k < 9 implies #[trigger] box_seq(g, k) == face_box(m, f, k) by {
        assert forall|p: int| 0 <= p < 9 implies box_seq(g, k)[p] == face_box(m, f, k)[p] by {
            let y = (k / 3) * 3 + p / 3;
            let x = (k % 3) * 3 + p % 3;
            assert(0 <= y < 9 && 0 <= x < 9) by (nonlinear_arith)
                requires y == (k / 3) * 3 + p / 3, x == (k % 3) * 3 + p % 3, 0 <= k < 9, 0 <= p < 9;
        }
        assert(box_seq(g, k) =~= face_box(m, f, k));
    }
    if units_distinct(g) {
        assert forall|v: int| 0 <= v < 9 implies distinct_nonzero(#[trigger] face_row(m, f, v)) by {
            assert(row_seq(g, v) == face_row(m, f, v));
        }
        assert forall|u: int| 0 <= u < 9 implies distinct_nonzero(#[trigger] face_col(m, f, u)) by {
            assert(col_seq(g, u) == face_col(m, f, u));
        }
        assert forall|k: int| 0 <= k < 9 implies distinct_nonzero(#[trigger] face_box(m, f, k)) by {
            assert(box_seq(g, k) == face_box(m, f, k));
        }
    }
    if face_units_distinct(m, f) {
        assert forall|v: int| 0 <= v < 9 implies distinct_nonzero(#[trigger] row_seq(g, v)) by {
            assert(row_seq(g, v) == face_row(m, f, v));
        }
        assert forall|u: int| 0 <= u < 9 implies distinct_nonzero(#[trigger] col_seq(g, u)) by {
            assert(col_seq(g, u) == face_col(m, f, u));
        }
        assert forall|k: int| 0 <= k < 9 implies distinct_nonzero(#[trigger] box_seq(g, k)) by {
            assert(box_seq(g, k) == face_box(m, f, k));
        }
    }
    if grid_solved(g) {
        assert forall|v: int| 0 <= v < 9 implies complete_unit(#[trigger] face_row(m, f, v)) by {
            assert(row_seq(g, v) == face_row(m, f, v));
        }
        assert forall|u: int| 0 <= u < 9 implies complete_unit(#[trigger] face_col(m, f, u)) by {
            assert(col_seq(g, u) == face_col(m, f, u));
        }
        assert forall|k: int| 0 <= k < 9 implies complete_unit(#[trigger] face_box(m, f, k)) by {
            assert(box_seq(g, k) == face_box(m, f, k));
        }
    }
    if face_solved(m, f) {
        assert forall|v: int| 0 <= v < 9 implies complete_unit(#[trigger] row_seq(g, v)) by {
            assert(row_seq(g, v) == face_row(m, f, v));
        }
        assert forall|u: int| 0 <= u < 9 implies complete_unit(#[trigger] col_seq(g, u)) by {
            assert(col_seq(g, u) == face_col(m, f, u));
        }
        assert forall|k: int| 0 <= k < 9 implies complete_unit(#[trigger] box_seq(g, k)) by {
            assert(box_seq(g, k) == face_box(m, f, k));
        }
    }
}

/// Whether a full assignment of the cube satisfies the sudoku rules on every face.
pub fn verify_solution(solution: &DigitMap) -> (r: bool)
    ensures
        r == solution_valid(solution@),
{
    let faces = Face::all();
    for i in 0..6usize
        invariant
            faces@ == Face::spec_all(),
            forall|j: int| 0 <= j < i ==> face_solved(solution@, #[trigger] faces@[j]),
    {
        let face = faces[i];
        let g = face_grid(face, solution);
        proof {
            lemma_face_grid_units(g, solution@, face);
        }
        if !grid_is_solved(&g) {
            return false;
        }
    }
    proof {
        assert forall|f: Face| face_solved(solution@, f) by {
            assert(faces@[f.index()] == f);
        }
    }
    true
}

/// Whether no row, column or box of face `face`, read from `solution`, repeats a digit
/// (cells without a value are ignored).
pub fn face_partial_valid(face: Face, solution: &DigitMap) -> (r: bool)
    requires
        forall|u: u8, v: u8| u < 9 && v < 9 ==> value_or_zero(solution@, #[trigger] face.cube_at(u, v)) <= 9,
    ensures
        r == face_units_distinct(solution@, face),
{
    let grid = face_grid(face, solution);
    proof {
        assert forall|v: int, u: int| 0 <= v < 9 && 0 <= u < 9 implies #[trigger] grid[v][u] <= 9 by {
            assert(value_or_zero(solution@, face.cube_at(u as u8, v as u8)) <= 9);
        }
        lemma_face_grid_units(grid, solution@, face);
    }
    is_partial_valid(&grid)
}

/// `0` or `8`: the low or high end of an axis.
pub open spec fn end_of(i: int) -> u8 {
    if i == 0 {
        0
    } else {
        8
    }
}

/// The eight corners, by increasing `(x, y, z)`.
pub open spec fn corners_spec() -> Seq<CubeCoord> {
    Seq::new(8, |i: int| CubeCoord { x: end_of(i / 4), y: end_of((i / 2) % 2), z: end_of(i % 2) })
}

/// The eight corners of the cube, by increasing `(x, y, z)`.
fn corner_coords() -> (r: Vec<CubeCoord>)
    ensures
        r@ == corners_spec(),
{
    let ends: [u8; 2] = [0, 8];
    let mut coords: Vec<CubeCoord> = Vec::with_capacity(8);
    for a in 0..2usize
        invariant
            ends@ == seq![0u8, 8u8],
            coords@ == corners_spec().take(a * 4),
    {
        for b in 0..2usize
            invariant
                a < 2,
                ends@ == seq![0u8, 8u8],
                coords@ == corners_spec().take(a * 4 + b * 2),
        {
            for c in 0..2usize
                invariant
                    a < 2,
                    b < 2,
                    ends@ == seq![0u8, 8u8],
                    coords@ == corners_spec().take(a * 4 + b * 2 + c),
            {
                let ghost i = a * 4 + b * 2 + c;
                assert(i / 4 == a && (i / 2) % 2 == b && i % 2 == c);
                coords.push(CubeCoord { x: ends[a], y: ends[b], z: ends[c] });
                assert(coords@ =~= corners_spec().take(i + 1));
            }
        }
    }
    assert(coords@ =~= corners_spec());
    coords
}

/// Edge `i` (0..12) of the cube: four edges along x, then four along y, then four along z.
/// Returns the two corner endpoints and the seven coordinates strictly between them.
pub open spec fn edge_spec(i: int) -> (CubeCoord, CubeCoord, Seq<CubeCoord>) {
    let j = i % 4;
    let p = end_of(j / 2);
    let q = end_of(j % 2);
    if i < 4 {
        (
            CubeCoord { x: 0, y: p, z: q },
            CubeCoord { x: 8, y: p, z: q },
            Seq::new(7, |k: int| CubeCoord { x: (k + 1) as u8, y: p, z: q }),
        )
    } else if i < 8 {
        (
            CubeCoord { x: p, y: 0, z: q },
            CubeCoord { x: p, y: 8, z: q },
            Seq::new(7, |k: int| CubeCoord { x: p, y: (k + 1) as u8, z: q }),
        )
    } else {
        (
            CubeCoord { x: p, y: q, z: 0 },
            CubeCoord { x: p, y: q, z: 8 },
            Seq::new(7, |k: int| CubeCoord { x: p, y: q, z: (k + 1) as u8 }),
        )
    }
}

/// One edge segment: two corner endpoints and the seven coordinates between them.
pub type EdgeSegment = (CubeCoord, CubeCoord, Vec<CubeCoord>);

/// `e` is edge `i` of the cube.
pub open spec fn is_edge(e: EdgeSegment, i: int) -> bool {
    e.0 == edge_spec(i).0 && e.1 == edge_spec(i).1 && e.2@ == edge_spec(i).2
}

/// The seven middle coordinates of an edge, built along the given axis.
fn edge_middle(axis: u8, p: u8, q: u8) -> (r: Vec<CubeCoord>)
    requires
        axis < 3,
    ensures
        axis == 0 ==> r@ == Seq::new(7, |k: int| CubeCoord { x: (k + 1) as u8, y: p, z: q }),
        axis == 1 ==> r@ == Seq::new(7, |k: int| CubeCoord { x: p, y: (k + 1) as u8, z: q }),
        axis == 2 ==> r@ == Seq::new(7, |k: int| CubeCoord { x: p, y: q, z: (k + 1) as u8 }),
{
    let mut r: Vec<CubeCoord> = Vec::with_capacity(7);
    for t in 1..8u8
        invariant
            axis < 3,
            r@.len() == t - 1,
            forall|k: int| 0 <= k < r@.len() ==> #[trigger] r@[k] == (if axis == 0 {
                CubeCoord { x: (k + 1) as u8, y: p, z: q }
            } else if axis == 1 {
                CubeCoord { x: p, y: (k + 1) as u8, z: q }
            } else {
                CubeCoord { x: p, y: q, z: (k + 1) as u8 }
            }),
    {
        let c = if axis == 0 {
            CubeCoord { x: t, y: p, z: q }
        } else if axis == 1 {
            CubeCoord { x: p, y: t, z: q }
        } else {
            CubeCoord { x: p, y: q, z: t }
        };
        r.push(c);
    }
    proof {
        if axis == 0 {
            assert(r@ =~= Seq::new(7, |k: int| CubeCoord { x: (k + 1) as u8, y: p, z: q }));
        } else if axis == 1 {
            assert(r@ =~= Seq::new(7, |k: int| CubeCoord { x: p, y: (k + 1) as u8, z: q }));
        } else {
            assert(r@ =~= Seq::new(7, |k: int| CubeCoord { x: p, y: q, z: (k + 1) as u8 }));
        }
    }
    r
}

/// The twelve edges of the cube: along x, then y, then z.
fn edge_segments() -> (r: Vec<EdgeSegment>)
    ensures
        r@.len() == 12,
        forall|i: int| 0 <= i < 12 ==> is_edge(#[trigger] r@[i], i),
{
    let ends: [u8; 2] = [0, 8];
    let mut edges: Vec<EdgeSegment> = Vec::with_capacity(12);
    for axis in 0..3u8
        invariant
            ends@ == seq![0u8, 8u8],
            edges@.len() == axis * 4,
            forall|i: int| 0 <= i < edges@.len() ==> is_edge(#[trigger] edges@[i], i),
    {
        for j in 0..4usize
            invariant
                axis < 3,
                ends@ == seq![0u8, 8u8],
                edges@.len() == axis * 4 + j,
                forall|i: int| 0 <= i < edges@.len() ==> is_edge(#[trigger] edges@[i], i),
        {
            let p = ends[j / 2];
            let q = ends[j % 2];
            let middle = edge_middle(axis, p, q);
            let e: EdgeSegment = if axis == 0 {
                (CubeCoord { x: 0, y: p, z: q }, CubeCoord { x: 8, y: p, z: q }, middle)
            } else if axis == 1 {
                (CubeCoord { x: p, y: 0, z: q }, CubeCoord { x: p, y: 8, z: q }, middle)
            } else {
                (CubeCoord { x: p, y: q, z: 0 }, CubeCoord { x: p, y: q, z: 8 }, middle)
            };
            let ghost i = axis * 4 + j;
            assert(i % 4 == j);
            assert(is_edge(e, i));
            edges.push(e);
        }
    }
    edges
}

/// A copy of a digit vector.
fn copy_digits(v: &Vec<u8>) -> (r: Vec<u8>)
    ensures
        r@ == v@,
{
    let mut r: Vec<u8> = Vec::with_capacity(v.len());
    for i in 0..v.len()
        invariant
            r@ == v@.take(i as int),
    {
        r.push(v[i]);
        assert(r@ =~= v@.take(i + 1));
    }
    assert(r@ =~= v@);
    r
}

/// `p` continues `cur` with distinct values of `pool` up to the length of `pool`.
pub open spec fn is_arrangement(p: Seq<u8>, pool: Seq<u8>, cur: Seq<u8>) -> bool {
    &&& p.len() == pool.len()
    &&& cur.len() <= p.len()
    &&& p.take(cur.len() as int) == cur
    &&& forall|k: int| cur.len() <= k < p.len() ==> pool.contains(#[trigger] p[k]) && !p.take(k).contains(p[k])
}

/// The arrangements of `pool` that continue `cur`, in the order they are produced: `cur`
/// itself once it is as long as `pool`, else, for each value of `pool` in turn that `cur`
/// does not hold yet, the arrangements that continue `cur` with that value.
pub open spec fn arrangements(pool: Seq<u8>, cur: Seq<u8>) -> Seq<Seq<u8>>
    decreases pool.len() - cur.len(), pool.len() + 1,
{
    if cur.len() >= pool.len() {
        seq![cur]
    } else {
        arrangements_from(pool, cur, 0)
    }
}

/// The arrangements that continue `cur` with a value of `pool` at index `i` or later.
pub open spec fn arrangements_from(pool: Seq<u8>, cur: Seq<u8>, i: int) -> Seq<Seq<u8>>
    decreases pool.len() - cur.len(), pool.len() - i,
{
    if cur.len() >= pool.len() || i < 0 || i >= pool.len() {
        Seq::empty()
    } else {
        (if cur.contains(pool[i]) {
            Seq::empty()
        } else {
            arrangements(pool, cur.push(pool[i]))
        }) + arrangements_from(pool, cur, i + 1)
    }
}

/// Whether the values of `p` are pairwise different.
pub open spec fn all_different(p: Seq<u8>) -> bool {
    forall|a: int, b: int| 0 <= a < p.len() && 0 <= b < p.len() && a != b ==> p[a] != p[b]
}

/// An arrangement continuing `cur` with `pool[i]` is among those that continue `cur` with
/// a value at index `j` or later, for `j <= i`.
proof fn lemma_from_contains(pool: Seq<u8>, cur: Seq<u8>, i: int, j: int, w: Seq<u8>)
    requires
        0 <= j <= i < pool.len(),
        cur.len() < pool.len(),
        !cur.contains(pool[i]),
        arrangements(pool, cur.push(pool[i])).contains(w),
    ensures
        arrangements_from(pool, cur, j).contains(w),
    decreases i - j,
{
    let x = if cur.contains(pool[j]) {
        Seq::<Seq<u8>>::empty()
    } else {
        arrangements(pool, cur.push(pool[j]))
    };
    let rest = arrangements_from(pool, cur, j + 1);
    assert(arrangements_from(pool, cur, j) == x + rest);
    if j == i {
        let k = choose|k: int| 0 <= k < x.len() && x[k] == w;
        assert((x + rest)[k] == w);
    } else {
        lemma_from_contains(pool, cur, i, j + 1, w);
        let k = choose|k: int| 0 <= k < rest.len() && rest[k] == w;
        assert((x + rest)[x.len() + k] == w);
    }
}

/// A pool of different values longer than `cur` has a value that `cur` lacks.
proof fn lemma_unused_value(pool: Seq<u8>, cur: Seq<u8>)
    requires
        pool.no_duplicates(),
        cur.len() < pool.len(),
    ensures
        exists|i: int| 0 <= i < pool.len() && !cur.contains(pool[i]),
{
    if forall|i: int| 0 <= i < pool.len() ==> cur.contains(pool[i]) {
        pool.unique_seq_to_set();
        cur.lemma_cardinality_of_set();
        assert(pool.to_set().subset_of(cur.to_set())) by {
            assert forall|x: u8| pool.to_set().contains(x) implies cur.to_set().contains(x) by {
                let i = choose|i: int| 0 <= i < pool.len() && pool[i] == x;
                assert(cur.contains(pool[i]));
            }
        }
        vstd::set_lib::lemma_len_subset(pool.to_set(), cur.to_set());
    }
}

/// Different values of `pool`, at most as many as it holds, begin some arrangement of
/// `pool` that continues `cur`, when they begin with `cur`.
proof fn lemma_arrangement_begins(pool: Seq<u8>, cur: Seq<u8>, p: Seq<u8>)
    requires
        pool.no_duplicates(),
        all_different(p),
        forall|k: int| 0 <= k < p.len() ==> pool.contains(#[trigger] p[k]),
        cur.len() <= p.len() <= pool.len(),
        p.take(cur.len() as int) == cur,
    ensures
        exists|w: Seq<u8>| #[trigger] arrangements(pool, cur).contains(w) && w.len() >= p.len() && w.take(p.len() as int) == p,
    decreases pool.len() - cur.len(),
{
    if cur.len() == pool.len() {
        assert(p =~= cur);
        assert(arrangements(pool, cur)[0] == cur);
        assert(arrangements(pool, cur).contains(cur));
        assert(cur.take(p.len() as int) =~= p);
    } else {
        let (p2, x) = if cur.len() < p.len() {
            (p, p[cur.len() as int])
        } else {
            lemma_unused_value(pool, cur);
            let i = choose|i: int| 0 <= i < pool.len() && !cur.contains(pool[i]);
            (cur.push(pool[i]), pool[i])
        };
        assert(pool.contains(x));
        let i = choose|i: int| 0 <= i < pool.len() && pool[i] == x;
        let c2 = cur.push(x);
        assert(!cur.contains(x)) by {
            if cur.len() < p.len() {
                if cur.contains(x) {
                    let k = choose|k: int| 0 <= k < cur.len() && cur[k] == x;
                    assert(p[k] == cur[k]);
                    assert(p[k] == p[cur.len() as int]);
                }
            }
        }
        assert(p2.take(c2.len() as int) =~= c2);
        assert(all_different(p2)) by {
            if cur.len() == p.len() {
                assert forall|a: int, b: int| 0 <= a < p2.len() && 0 <= b < p2.len() && a != b implies p2[a] != p2[b] by {
                    if a < cur.len() && b < cur.len() {
                        assert(p[a] == cur[a] && p[b] == cur[b]);
                    } else if a < cur.len() {
                        assert(cur.contains(cur[a]));
                    } else if b < cur.len() {
                        assert(cur.contains(cur[b]));
                    }
                }
            }
        }
        assert forall|k: int| 0 <= k < p2.len() implies pool.contains(#[trigger] p2[k]) by {
            if cur.len() == p.len() && k < cur.len() {
                assert(p[k] == cur[k]);
            }
        }
        lemma_arrangement_begins(pool, c2, p2);
        let w = choose|w: Seq<u8>| #[trigger] arrangements(pool, c2).contains(w) && w.len() >= p2.len() && w.take(p2.len() as int) == p2;
        lemma_from_contains(pool, cur, i, 0, w);
        assert(arrangements(pool, cur).contains(w));
        assert(w.take(p.len() as int) =~= p2.take(p.len() as int));
        assert(p2.take(p.len() as int) =~= p);
    }
}

/// Appends to `out` every arrangement of the values of `pool` that continues `current`
/// (each further value taken from `pool` and not yet used), in pool order; `current` is
/// left as it was.
fn generate_permutations(pool: &[u8], current: &mut Vec<u8>, out: &mut Vec<Vec<u8>>)
    requires
        old(current)@.len() <= pool@.len(),
    ensures
        final(current)@ == old(current)@,
        final(out)@.len() >= old(out)@.len(),
        forall|i: int| 0 <= i < old(out)@.len() ==> #[trigger] final(out)@[i] == old(out)@[i],
        forall|i: int|
            old(out)@.len() <= i < final(out)@.len() ==> is_arrangement(#[trigger] final(out)@[i]@, pool@, old(current)@),
        final(out).deep_view() == old(out).deep_view() + arrangements(pool@, old(current)@),
    decreases pool@.len() - old(current)@.len(),
{
    if current.len() == pool.len() {
        let c = copy_digits(current);
        proof {
            assert(c@.take(current@.len() as int) =~= c@);
        }
        let ghost d0 = out.deep_view();
        let ghost o0 = out@;
        let ghost cv = c@;
        assert(c.deep_view() =~= cv);
        out.push(c);
        proof {
            assert forall|j: int| 0 <= j < out@.len() implies #[trigger] out.deep_view()[j] == (d0 + seq![current@])[j] by {
                if j < o0.len() {
                    assert(out@[j] == o0[j]);
                } else {
                    assert(out@[j].deep_view() =~= current@);
                }
            }
            assert(out.deep_view() =~= d0 + seq![current@]);
        }
        return;
    }
    let ghost cur0 = current@;
    let ghost out0 = out@;
    let ghost deep0 = out.deep_view();
    for i in 0..pool.len()
        invariant
            current@ == cur0,
            cur0 == old(current)@,
            cur0.len() < pool@.len(),
            deep0 == old(out).deep_view(),
            out.deep_view() + arrangements_from(pool@, cur0, i as int) == deep0 + arrangements_from(pool@, cur0, 0),
            out@.len() >= out0.len(),
            forall|j: int| 0 <= j < out0.len() ==> #[trigger] out@[j] == out0[j],
            forall|j: int| out0.len() <= j < out@.len() ==> is_arrangement(#[trigger] out@[j]@, pool@, cur0),
    {
        let v = pool[i];
        let mut used = false;
        for k in 0..current.len()
            invariant
                current@ == cur0,
                used == exists|m: int| 0 <= m < k && cur0[m] == v,
        {
            if current[k] == v {
                used = true;
            }
        }
        proof {
            assert(used == cur0.contains(v));
            assert(pool@[i as int] == v);
            assert(arrangements_from(pool@, cur0, i as int) == (if cur0.contains(v) {
                Seq::<Seq<u8>>::empty()
            } else {
                arrangements(pool@, cur0.push(v))
            }) + arrangements_from(pool@, cur0, i + 1));
        }
        if used {
            proof {
                assert(out.deep_view() + arrangements_from(pool@, cur0, i + 1) =~= out.deep_view()
                    + arrangements_from(pool@, cur0, i as int));
            }
        }
        if !used {
            let ghost mid = out@;
            let ghost mid_deep = out.deep_view();
            current.push(v);
            generate_permutations(pool, current, out);
            proof {
                assert(out.deep_view() + arrangements_from(pool@, cur0, i + 1) =~= mid_deep
                    + arrangements_from(pool@, cur0, i as int));
            }
            proof {
                assert forall|j: int| out0.len() <= j < out@.len() implies is_arrangement(#[trigger] out@[j]@, pool@, cur0) by {
                    if j >= mid.len() {
                        let p = out@[j]@;
                        let c1 = cur0.push(v);
                        assert(p.take(c1.len() as int) == c1);
                        assert(p.take(cur0.len() as int) =~= c1.take(cur0.len() as int));
                        assert(c1.take(cur0.len() as int) =~= cur0);
                        assert forall|k: int| cur0.len() <= k < p.len() implies pool@.contains(#[trigger] p[k]) && !p.take(k).contains(p[k]) by {
                            if k == cur0.len() {
                                assert(p[k] == c1[k]);
                                assert(pool@[i as int] == v);
                                assert(p.take(k) =~= cur0);
                                if cur0.contains(v) {
                                    let m = choose|m: int| 0 <= m < cur0.len() && cur0[m] == v;
                                }
                            }
                        }
                    } else {
                        assert(out@[j] == mid[j]);
                    }
                }
            }
            current.pop();
            assert(current@ =~= cur0);
        }
    }
    proof {
        assert(out.deep_view() =~= deep0 + arrangements(pool@, cur0));
    }
}

/// Every value of the map is a digit 1-9.
pub open spec fn digits_only(m: Map<CubeCoord, u8>) -> bool {
    forall|c: CubeCoord| #[trigger] m.dom().contains(c) ==> 1 <= m[c] <= 9
}

/// No two distinct assigned coordinates constrained against each other hold the same digit.
pub open spec fn conflict_free(m: Map<CubeCoord, u8>) -> bool {
    forall|a: CubeCoord, b: CubeCoord|
        #[trigger] m.dom().contains(a) && #[trigger] m.dom().contains(b) && a != b && constrained(a, b) ==> m[a] != m[b]
}

/// Every assigned coordinate lies on the surface.
pub open spec fn surface_keys(m: Map<CubeCoord, u8>) -> bool {
    forall|c: CubeCoord| #[trigger] m.dom().contains(c) ==> c.on_surface()
}

/// `m2` keeps every entry of `m1`.
pub open spec fn map_extends(m2: Map<CubeCoord, u8>, m1: Map<CubeCoord, u8>) -> bool {
    forall|c: CubeCoord| #[trigger] m1.dom().contains(c) ==> m2.dom().contains(c) && m2[c] == m1[c]
}

/// Whether some assigned coordinate related to `coord` (other than `coord`) holds `value`.
fn value_conflicts(solution: &DigitMap, coord: CubeCoord, value: u8) -> (r: bool)
    ensures
        r == exists|other: CubeCoord|
            #[trigger] solution@.dom().contains(other) && constrained(coord, other) && solution@[other] == value,
{
    let mut i: usize = 0;
    while i < 729
        invariant
            i <= 729,
            forall|other: CubeCoord|
                #[trigger] solution@.dom().contains(other) && other.slot() < i && constrained(coord, other)
                    ==> solution@[other] != value,
        decreases 729 - i,
    {
        let other = coord_from_slot(i);
        if are_related(coord, other) {
            if let Some(v) = solution.get(&other) {
                if v == value {
                    return true;
                }
            }
        }
        proof {
            assert forall|o: CubeCoord|
                #[trigger] solution@.dom().contains(o) && o.slot() < i + 1 && constrained(coord, o)
                    implies solution@[o] != value by {
                crate::digits::lemma_solution_keys_in_box(*solution, o);
                if o.slot() == i {
                    crate::cube::lemma_slot_injective(o, other);
                }
            }
        }
        i += 1;
    }
    proof {
        assert forall|o: CubeCoord|
            #[trigger] solution@.dom().contains(o) && constrained(coord, o) implies solution@[o] != value by {
            crate::digits::lemma_solution_keys_in_box(*solution, o);
            crate::cube::lemma_slot_bijection(o, 0);
        }
    }
    false
}

/// The digits 1-9 in increasing order.
fn digits_one_to_nine() -> (r: Vec<u8>)
    ensures
        r@ == Seq::new(9, |i: int| (i + 1) as u8),
{
    let mut r: Vec<u8> = Vec::with_capacity(9);
    for d in 1..10u8
        invariant
            r@ == Seq::new((d - 1) as nat, |i: int| (i + 1) as u8),
    {
        r.push(d);
        assert(r@ =~= Seq::new(d as nat, |i: int| (i + 1) as u8));
    }
    r
}

/// Solution generator that collapses the cube in stages: corners, then edges, then the
/// interior of each face.
pub struct WfcGenerator;

/// Whether every assigned coordinate of `m` is a corner of the cube.
pub open spec fn corners_only(m: Map<CubeCoord, u8>) -> bool {
    forall|c: CubeCoord| #[trigger] m.dom().contains(c) ==> corner_like(c)
}

/// Whether some assigned coordinate of `m` constrained against `c` holds `v`.
pub open spec fn blocked(m: Map<CubeCoord, u8>, c: CubeCoord, v: u8) -> bool {
    exists|other: CubeCoord| #[trigger] m.dom().contains(other) && constrained(c, other) && m[other] == v
}

/// The corner that differs from corner `c` along axis `axis` (0: x, 1: y, 2: z) only.
spec fn flip(c: CubeCoord, axis: int) -> CubeCoord {
    if axis == 0 {
        CubeCoord { x: (8 - c.x) as u8, ..c }
    } else if axis == 1 {
        CubeCoord { y: (8 - c.y) as u8, ..c }
    } else {
        CubeCoord { z: (8 - c.z) as u8, ..c }
    }
}

/// A corner constrained against another corner is one of its three neighbours along the
/// edges of the cube.
proof fn lemma_corner_neighbours(c: CubeCoord, d: CubeCoord)
    requires
        corner_like(c),
        corner_like(d),
        c != d,
        constrained(c, d),
    ensures
        d == flip(c, 0) || d == flip(c, 1) || d == flip(c, 2),
{
}

/// With only corners assigned, a free corner has a digit that nothing blocks: at most its
/// three neighbours hold a digit it must avoid.
proof fn lemma_corner_has_free_digit(m: Map<CubeCoord, u8>, c: CubeCoord)
    requires
        corner_like(c),
        !m.dom().contains(c),
        corners_only(m),
    ensures
        exists|v: u8| 1 <= v <= 9 && !blocked(m, c, v),
{
    let a = value_or_zero(m, flip(c, 0));
    let b = value_or_zero(m, flip(c, 1));
    let e = value_or_zero(m, flip(c, 2));
    let v: u8 = if a != 1 && b != 1 && e != 1 {
        1
    } else if a != 2 && b != 2 && e != 2 {
        2
    } else if a != 3 && b != 3 && e != 3 {
        3
    } else {
        4
    };
    assert(v != a && v != b && v != e);
    assert forall|o: CubeCoord| #[trigger] m.dom().contains(o) && constrained(c, o) implies m[o] != v by {
        assert(corner_like(o));
        lemma_corner_neighbours(c, o);
    }
    assert(!blocked(m, c, v));
}

/// The first `n` entries of row `v` of face `f` as `m` fills it (the rest 0).
spec fn row_of(m: Map<CubeCoord, u8>, f: Face, v: int, n: int) -> [u8; 9]
    decreases n,
{
    if n <= 0 {
        vstd::array::spec_array_fill_for_copy_type::<u8, 9>(0u8)
    } else {
        vstd::array::spec_array_update(row_of(m, f, v, n - 1), n - 1, value_or_zero(m, f.cube_at((n - 1) as u8, v as u8)))
    }
}

/// The first `n` rows of face `f` as `m` fills it (the rest empty).
spec fn grid_of(m: Map<CubeCoord, u8>, f: Face, n: int) -> FaceGrid
    decreases n,
{
    if n <= 0 {
        vstd::array::spec_array_fill_for_copy_type::<[u8; 9], 9>(row_of(m, f, 0, 0))
    } else {
        vstd::array::spec_array_update(grid_of(m, f, n - 1), n - 1, row_of(m, f, n - 1, 9))
    }
}

proof fn lemma_row_of(m: Map<CubeCoord, u8>, f: Face, v: int, n: int)
    requires
        0 <= n <= 9,
    ensures
        forall|u: int| 0 <= u < n ==> #[trigger] row_of(m, f, v, n)[u] == value_or_zero(m, f.cube_at(u as u8, v as u8)),
    decreases n,
{
    if n > 0 {
        lemma_row_of(m, f, v, n - 1);
        assert(row_of(m, f, v, n)@ == row_of(m, f, v, n - 1)@.update(n - 1, value_or_zero(m, f.cube_at((n - 1) as u8, v as u8))));
    }
}

proof fn lemma_grid_of(m: Map<CubeCoord, u8>, f: Face, n: int)
    requires
        0 <= n <= 9,
    ensures
        forall|v: int| 0 <= v < n ==> #[trigger] grid_of(m, f, n)[v] == row_of(m, f, v, 9),
    decreases n,
{
    if n > 0 {
        lemma_grid_of(m, f, n - 1);
        assert(grid_of(m, f, n)@ == grid_of(m, f, n - 1)@.update(n - 1, row_of(m, f, n - 1, 9)));
    }
}

/// Every assignment has a face grid for every face.
proof fn lemma_face_grid_exists(m: Map<CubeCoord, u8>, f: Face)
    ensures
        is_face_grid(grid_of(m, f, 9), m, f),
{
    let g = grid_of(m, f, 9);
    lemma_grid_of(m, f, 9);
    assert forall|v: int, u: int| 0 <= v < 9 && 0 <= u < 9 implies #[trigger] g[v][u] == value_or_zero(m, f.cube_at(u as u8, v as u8)) by {
        lemma_row_of(m, f, v, 9);
        assert(g[v] == row_of(m, f, v, 9));
    }
}

/// A grid that keeps the filled entries of `g` and repeats nothing in a unit makes `g`
/// repeat nothing either.
proof fn lemma_units_distinct_down(h: FaceGrid, g: FaceGrid)
    requires
        units_distinct(h),
        extends(h, g),
    ensures
        units_distinct(g),
{
    assert forall|v: int| 0 <= v < 9 implies distinct_nonzero(#[trigger] row_seq(g, v)) by {
        assert forall|a: int, b: int| 0 <= a < 9 && 0 <= b < 9 && a != b && row_seq(g, v)[a] != 0 implies #[trigger] row_seq(g, v)[a]
            != #[trigger] row_seq(g, v)[b] by {
            assert(distinct_nonzero(row_seq(h, v)));
            assert(row_seq(h, v)[a] == h[v][a]);
            assert(row_seq(h, v)[b] == h[v][b]);
            if g[v][b] != 0 {
                assert(h[v][b] == g[v][b]);
            }
        }
    }
    assert forall|u: int| 0 <= u < 9 implies distinct_nonzero(#[trigger] col_seq(g, u)) by {
        assert forall|a: int, b: int| 0 <= a < 9 && 0 <= b < 9 && a != b && col_seq(g, u)[a] != 0 implies #[trigger] col_seq(g, u)[a]
            != #[trigger] col_seq(g, u)[b] by {
            assert(distinct_nonzero(col_seq(h, u)));
            assert(col_seq(h, u)[a] == h[a][u]);
            assert(col_seq(h, u)[b] == h[b][u]);
        }
    }
    assert forall|k: int| 0 <= k < 9 implies distinct_nonzero(#[trigger] box_seq(g, k)) by {
        assert forall|a: int, b: int| 0 <= a < 9 && 0 <= b < 9 && a != b && box_seq(g, k)[a] != 0 implies #[trigger] box_seq(g, k)[a]
            != #[trigger] box_seq(g, k)[b] by {
            assert(distinct_nonzero(box_seq(h, k)));
            let ya = (k / 3) * 3 + a / 3;
            let xa = (k % 3) * 3 + a % 3;
            let yb = (k / 3) * 3 + b / 3;
            let xb = (k % 3) * 3 + b % 3;
            assert(0 <= ya < 9 && 0 <= xa < 9 && 0 <= yb < 9 && 0 <= xb < 9);
            assert(box_seq(h, k)[a] == h[ya][xa]);
            assert(box_seq(h, k)[b] == h[yb][xb]);
            assert(box_seq(g, k)[a] == g[ya][xa]);
            assert(box_seq(g, k)[b] == g[yb][xb]);
        }
    }
}

/// An assignment that extends `m0` and solves face `f` gives a completion of the face grid
/// of `m0`.
proof fn lemma_solved_face_completes(m0: Map<CubeCoord, u8>, m: Map<CubeCoord, u8>, f: Face, g0: FaceGrid)
    requires
        map_extends(m, m0),
        face_solved(m, f),
        is_face_grid(g0, m0, f),
    ensures
        is_completion(grid_of(m, f, 9), g0),
{
    let h = grid_of(m, f, 9);
    lemma_face_grid_exists(m, f);
    lemma_face_grid_units(h, m, f);
    lemma_grid_solved_iff(h);
    assert forall|v: int, u: int| 0 <= v < 9 && 0 <= u < 9 && g0[v][u] != 0 implies #[trigger] h[v][u] == g0[v][u] by {
        let c = f.cube_at(u as u8, v as u8);
        assert(g0[v][u] == value_or_zero(m0, c));
        assert(m0.dom().contains(c));
        assert(h[v][u] == value_or_zero(m, c));
    }
}

/// Taking values away keeps a unit without repeats.
proof fn lemma_distinct_fewer(s: Seq<u8>, t: Seq<u8>)
    requires
        distinct_nonzero(s),
        s.len() == t.len(),
        forall|i: int| 0 <= i < t.len() && #[trigger] t[i] != 0 ==> t[i] == s[i],
    ensures
        distinct_nonzero(t),
{
    assert forall|a: int, b: int| 0 <= a < t.len() && 0 <= b < t.len() && a != b && t[a] != 0 implies #[trigger] t[a]
        != #[trigger] t[b] by {
        if t[b] != 0 {
            assert(s[a] != s[b]);
        }
    }
}

/// A face without repeats has none in an assignment that keeps part of its values.
proof fn lemma_face_distinct_fewer(m: Map<CubeCoord, u8>, m1: Map<CubeCoord, u8>, f: Face)
    requires
        face_units_distinct(m, f),
        map_extends(m, m1),
    ensures
        face_units_distinct(m1, f),
{
    assert forall|v: int| 0 <= v < 9 implies distinct_nonzero(#[trigger] face_row(m1, f, v)) by {
        assert(distinct_nonzero(face_row(m, f, v)));
        assert forall|i: int| 0 <= i < 9 && #[trigger] face_row(m1, f, v)[i] != 0 implies face_row(m1, f, v)[i]
            == face_row(m, f, v)[i] by {
            assert(m1.dom().contains(f.cube_at(i as u8, v as u8)));
        }
        lemma_distinct_fewer(face_row(m, f, v), face_row(m1, f, v));
    }
    assert forall|u: int| 0 <= u < 9 implies distinct_nonzero(#[trigger] face_col(m1, f, u)) by {
        assert(distinct_nonzero(face_col(m, f, u)));
        assert forall|i: int| 0 <= i < 9 && #[trigger] face_col(m1, f, u)[i] != 0 implies face_col(m1, f, u)[i]
            == face_col(m, f, u)[i] by {
            assert(m1.dom().contains(f.cube_at(u as u8, i as u8)));
        }
        lemma_distinct_fewer(face_col(m, f, u), face_col(m1, f, u));
    }
    assert forall|k: int| 0 <= k < 9 implies distinct_nonzero(#[trigger] face_box(m1, f, k)) by {
        assert(distinct_nonzero(face_box(m, f, k)));
        assert forall|i: int| 0 <= i < 9 && #[trigger] face_box(m1, f, k)[i] != 0 implies face_box(m1, f, k)[i]
            == face_box(m, f, k)[i] by {
            assert(m1.dom().contains(f.cube_at(((k % 3) * 3 + i % 3) as u8, ((k / 3) * 3 + i / 3) as u8)));
        }
        lemma_distinct_fewer(face_box(m, f, k), face_box(m1, f, k));
    }
}

/// Middle `q` of the edge at position `j` of `order`.
pub open spec fn middle_at(edges: Seq<EdgeSegment>, order: Seq<usize>, j: int, q: int) -> CubeCoord {
    edges[order[j] as int].2@[q]
}

/// The values of `m` at the seven middles of an edge.
pub open spec fn middle_values(m: Map<CubeCoord, u8>, middle: Seq<CubeCoord>) -> Seq<u8> {
    Seq::new(7, |k: int| m[middle[k]])
}

/// Whether `m` completes `m0` on the edges at positions `idx..` of `order`: it keeps `m0`,
/// holds digits, leaves no face with a repeat, and gives each of those edges seven
/// different digits other than its ends'.
pub open spec fn fills_edges(
    m: Map<CubeCoord, u8>,
    m0: Map<CubeCoord, u8>,
    edges: Seq<EdgeSegment>,
    order: Seq<usize>,
    idx: int,
) -> bool {
    &&& map_extends(m, m0)
    &&& digits_only(m)
    &&& forall|f: Face| #[trigger] face_units_distinct(m, f)
    &&& forall|j: int, q: int| idx <= j < order.len() && 0 <= q < 7 ==> m.dom().contains(#[trigger] middle_at(edges, order, j, q))
    &&& forall|j: int, q: int, t: int|
        idx <= j < order.len() && 0 <= q < 7 && 0 <= t < 7 && q != t ==> m[#[trigger] middle_at(edges, order, j, q)]
            != m[#[trigger] middle_at(edges, order, j, t)]
    &&& forall|j: int, q: int|
        idx <= j < order.len() && 0 <= q < 7 ==> m[#[trigger] middle_at(edges, order, j, q)] != m[edges[order[j] as int].0]
            && m[middle_at(edges, order, j, q)] != m[edges[order[j] as int].1]
}

impl WfcGenerator {
    /// A generator (it holds no state of its own).
    pub fn new() -> (r: Self) {
        Self
    }

    /// Assigns the corners `corners[order[idx..]]`, in that order, by backtracking over
    /// shuffled digits; a digit is tried only when no assigned coordinate constrained
    /// against the corner holds it. On success every such corner is assigned, earlier
    /// entries are kept, and the assignment stays digit-valued and conflict free; on
    /// failure entries other than those corners are as before. When only corners are
    /// assigned it always succeeds: a corner has three neighbours at most to avoid.
    fn backtrack_vertices(
        &self,
        corners: &[CubeCoord],
        order: &[usize],
        idx: usize,
        solution: &mut DigitMap,
        rng: &mut StdRng,
    ) -> (r: bool)
        requires
            idx <= order@.len(),
            forall|j: int| 0 <= j < order@.len() ==> #[trigger] order@[j] < corners@.len(),
            forall|j: int| 0 <= j < corners@.len() ==> (#[trigger] corners@[j]).in_box(),
            forall|j: int, k: int|
                idx <= j < order@.len() && idx <= k < order@.len() && j != k ==> #[trigger] corners@[order@[j] as int]
                    != #[trigger] corners@[order@[k] as int],
            forall|j: int|
                idx <= j < order@.len() ==> !old(solution)@.dom().contains(#[trigger] corners@[order@[j] as int]),
            digits_only(old(solution)@),
            conflict_free(old(solution)@),
            forall|j: int| 0 <= j < corners@.len() ==> corner_like(#[trigger] corners@[j]),
        ensures
            digits_only(final(solution)@),
            conflict_free(final(solution)@),
            forall|c: CubeCoord| #[trigger] final(solution)@.dom().contains(c) ==> old(solution)@.dom().contains(c) || corner_like(c),
            r ==> map_extends(final(solution)@, old(solution)@) && forall|j: int|
                idx <= j < order@.len() ==> final(solution)@.dom().contains(#[trigger] corners@[order@[j] as int]),
            !r ==> final(solution)@ == old(solution)@,
            corners_only(old(solution)@) ==> r,
        decreases order@.len() - idx,
    {
        if idx == order.len() {
            return true;
        }
        let coord = corners[order[idx]];
        let next = idx + 1;
        let mut candidates = digits_one_to_nine();
        let ghost before = candidates@;
        shuffle(&mut candidates, rng);
        proof {
            lemma_shuffled_same_members(before, candidates@);
            assert forall|x: u8| candidates@.contains(x) implies 1 <= x <= 9 by {
                assert(before.contains(x));
                let k = choose|k: int| 0 <= k < before.len() && before[k] == x;
            }
            assert forall|x: u8| 1 <= x <= 9 implies candidates@.contains(x) by {
                assert(before[x - 1] == x);
                assert(before.contains(x));
            }
        }
        let ghost m0 = solution@;
        let n = candidates.len();
        let mut i: usize = 0;
        while i < n
            invariant
                n == candidates@.len(),
                i <= n,
                idx < order@.len(),
                next == idx + 1,
                coord == corners@[order@[idx as int] as int],
                coord.in_box(),
                !m0.dom().contains(coord),
                solution@ == m0,
                m0 == old(solution)@,
                digits_only(m0),
                conflict_free(m0),
                forall|x: u8| candidates@.contains(x) ==> 1 <= x <= 9,
                forall|j: int| 0 <= j < order@.len() ==> #[trigger] order@[j] < corners@.len(),
                forall|j: int| 0 <= j < corners@.len() ==> (#[trigger] corners@[j]).in_box(),
                forall|j: int, k: int|
                    idx <= j < order@.len() && idx <= k < order@.len() && j != k ==> #[trigger] corners@[order@[j] as int]
                        != #[trigger] corners@[order@[k] as int],
                forall|j: int|
                    idx <= j < order@.len() ==> !m0.dom().contains(#[trigger] corners@[order@[j] as int]),
                forall|j: int| 0 <= j < corners@.len() ==> corner_like(#[trigger] corners@[j]),
                forall|x: u8| 1 <= x <= 9 ==> candidates@.contains(x),
                corners_only(m0) ==> forall|k: int| 0 <= k < i ==> blocked(m0, coord, #[trigger] candidates@[k]),
            decreases n - i,
        {
            let value = candidates[i];
            assert(candidates@.contains(value));
            if !value_conflicts(solution, coord, value) {
                solution.insert(coord, value);
                proof {
                    assert forall|a: CubeCoord, b: CubeCoord|
                        #[trigger] solution@.dom().contains(a) && #[trigger] solution@.dom().contains(b) && a != b
                            && constrained(a, b) implies solution@[a] != solution@[b] by {
                        if a == coord {
                            assert(m0.dom().contains(b));
                        } else if b == coord {
                            assert(m0.dom().contains(a));
                            assert(constrained(coord, a));
                        }
                    }
                    assert forall|j: int| idx + 1 <= j < order@.len() implies !solution@.dom().contains(
                        #[trigger] corners@[order@[j] as int]) by {
                        assert(corners@[order@[j] as int] != corners@[order@[idx as int] as int]);
                    }
                }
                let ghost m1 = solution@;
                if self.backtrack_vertices(corners, order, next, solution, rng) {
                    proof {
                        assert forall|c: CubeCoord| #[trigger] solution@.dom().contains(c) implies m0.dom().contains(c) || corner_like(c) by {
                            if m1.dom().contains(c) && c != coord {
                                assert(m0.dom().contains(c));
                            }
                        }
                        assert(m1.dom().contains(coord));
                        assert forall|j: int| idx <= j < order@.len() implies solution@.dom().contains(
                            #[trigger] corners@[order@[j] as int]) by {
                            if j == idx {
                                assert(m1.dom().contains(corners@[order@[j] as int]));
                            }
                        }
                        assert forall|c: CubeCoord| #[trigger] m0.dom().contains(c) implies solution@.dom().contains(c)
                            && solution@[c] == m0[c] by {
                            assert(m1.dom().contains(c));
                        }
                    }
                    return true;
                }
                proof {
                    assert(corner_like(coord));
                    if corners_only(m0) {
                        assert(corners_only(m1));
                    }
                }
                solution.remove(&coord);
                assert(solution@ =~= m0);
            }
            i += 1;
        }
        proof {
            if corners_only(m0) {
                assert(corner_like(coord));
                lemma_corner_has_free_digit(m0, coord);
                let v = choose|v: u8| 1 <= v <= 9 && !blocked(m0, coord, v);
                assert(candidates@.contains(v));
                let k = choose|k: int| 0 <= k < candidates@.len() && candidates@[k] == v;
                assert(blocked(m0, coord, candidates@[k]));
            }
        }
        false
    }

    /// Whether the faces through the first coordinate of `middle` (the two faces an edge
    /// lies on) still repeat no digit in any row, column or box.
    fn edges_locally_valid(
        &self,
        solution: &DigitMap,
        _a: &CubeCoord,
        _b: &CubeCoord,
        middle: &[CubeCoord],
    ) -> (r: bool)
        requires
            digits_only(solution@),
        ensures
            r == (middle@.len() == 0 || forall|i: int|
                0 <= i < face_coords_of(middle@[0]).len() ==> face_units_distinct(solution@, #[trigger] face_coords_of(middle@[0])[i].face)),
    {
        if middle.len() == 0 {
            return true;
        }
        let sample = middle[0];
        let fcs = sample.to_face_coords();
        for i in 0..fcs.len()
            invariant
                fcs@ == face_coords_of(sample),
                middle@.len() > 0,
                sample == middle@[0],
                digits_only(solution@),
                forall|j: int| 0 <= j < i ==> face_units_distinct(solution@, #[trigger] fcs@[j].face),
        {
            if !face_partial_valid(fcs[i].face, solution) {
                assert(!face_units_distinct(solution@, face_coords_of(middle@[0])[i as int].face));
                return false;
            }
        }
        true
    }

    /// Fills the middles of the edges `edges[order[idx..]]`, in that order, by
    /// backtracking over shuffled arrangements of the digits their endpoints do not use,
    /// keeping the two faces of each edge free of repeats. On success every middle of those
    /// edges is assigned a digit and the other entries are kept; on failure the assignment
    /// is left as it was, and no assignment that keeps it gives each of those edges seven
    /// different digits other than its ends' while leaving every face without a repeat.
    fn solve_edges(
        &self,
        edges: &[EdgeSegment],
        order: &[usize],
        idx: usize,
        solution: &mut DigitMap,
        rng: &mut StdRng,
    ) -> (r: bool)
        requires
            idx <= order@.len(),
            edges@.len() == 12,
            forall|i: int| 0 <= i < 12 ==> is_edge(#[trigger] edges@[i], i),
            forall|j: int| 0 <= j < order@.len() ==> #[trigger] order@[j] < 12,
            forall|j: int, k: int|
                idx <= j < order@.len() && idx <= k < order@.len() && j != k ==> #[trigger] order@[j] != #[trigger] order@[k],
            forall|c: CubeCoord| corner_like(c) ==> old(solution)@.dom().contains(c),
            forall|j: int, q: int|
                idx <= j < order@.len() && 0 <= q < 7 ==> !old(solution)@.dom().contains(
                    #[trigger] edges@[order@[j] as int].2@[q]),
            digits_only(old(solution)@),
        ensures
            digits_only(final(solution)@),
            surface_keys(old(solution)@) ==> surface_keys(final(solution)@),
            r ==> map_extends(final(solution)@, old(solution)@) && forall|j: int, q: int|
                idx <= j < order@.len() && 0 <= q < 7 ==> final(solution)@.dom().contains(
                    #[trigger] edges@[order@[j] as int].2@[q]),
            !r ==> final(solution)@ == old(solution)@,
            !r ==> forall|m: Map<CubeCoord, u8>| !#[trigger] fills_edges(m, old(solution)@, edges@, order@, idx as int),
        decreases order@.len() - idx,
    {
        if idx == order.len() {
            return true;
        }
        let next = idx + 1;
        let e = &edges[order[idx]];
        let ghost ei = order@[idx as int] as int;
        proof {
            lemma_edge_shape(ei);
        }
        let a = &e.0;
        let b = &e.1;
        let middle = &e.2;
        let va = solution.get(a).unwrap();
        let vb = solution.get(b).unwrap();
        let mut pool: Vec<u8> = Vec::new();
        for d in 1..10u8
            invariant
                forall|k: int| 0 <= k < pool@.len() ==> 1 <= #[trigger] pool@[k] <= 9,
                pool@.len() + (if 1 <= va < d { 1int } else { 0int }) + (if 1 <= vb < d && vb != va { 1int } else { 0int }) == d - 1,
                forall|k: int| 0 <= k < pool@.len() ==> #[trigger] pool@[k] < d && pool@[k] != va && pool@[k] != vb,
                forall|a: int, b: int| 0 <= a < b < pool@.len() ==> #[trigger] pool@[a] < #[trigger] pool@[b],
                forall|x: u8| 1 <= x < d && x != va && x != vb ==> pool@.contains(x),
        {
            let ghost pool0 = pool@;
            if d != va && d != vb {
                pool.push(d);
            }
            proof {
                assert forall|x: u8| 1 <= x < d + 1 && x != va && x != vb implies pool@.contains(x) by {
                    if x == d {
                        assert(pool@[pool@.len() - 1] == d);
                    } else {
                        assert(pool0.contains(x));
                        let t = choose|t: int| 0 <= t < pool0.len() && pool0[t] == x;
                        assert(pool@[t] == x);
                    }
                }
            }
        }
        let mut perms: Vec<Vec<u8>> = Vec::new();
        let mut current: Vec<u8> = Vec::new();
        generate_permutations(&pool, &mut current, &mut perms);
        let ghost before = perms@;
        let ghost arr = arrangements(pool@, seq![]);
        proof {
            assert(perms.deep_view() =~= arr);
            assert(pool@.no_duplicates()) by {
                assert forall|a: int, b: int| 0 <= a < pool@.len() && 0 <= b < pool@.len() && a != b implies pool@[a] != pool@[b] by {
                    if a < b {
                        assert(pool@[a] < pool@[b]);
                    } else {
                        assert(pool@[b] < pool@[a]);
                    }
                }
            }
        }
        shuffle(&mut perms, rng);
        proof {
            lemma_shuffled_same_members(before, perms@);
            assert forall|w: Seq<u8>| #[trigger] arr.contains(w) implies exists|q: int| 0 <= q < perms@.len() && perms@[q]@ == w by {
                let k = choose|k: int| 0 <= k < arr.len() && arr[k] == w;
                assert(before[k].deep_view() == arr[k]);
                assert(before[k].deep_view() =~= before[k]@);
                assert(before.contains(before[k]));
                assert(perms@.contains(before[k]));
                let q = choose|q: int| 0 <= q < perms@.len() && perms@[q] == before[k];
            }
            assert forall|i: int| 0 <= i < perms@.len() implies is_arrangement(#[trigger] perms@[i]@, pool@, seq![]) by {
                assert(before.contains(perms@[i]));
            }
        }
        let ghost m0 = solution@;
        let n = perms.len();
        let mut i: usize = 0;
        while i < n
            invariant
                n == perms@.len(),
                i <= n,
                idx < order@.len(),
                next == idx + 1,
                edges@.len() == 12,
                forall|i: int| 0 <= i < 12 ==> is_edge(#[trigger] edges@[i], i),
                forall|j: int| 0 <= j < order@.len() ==> #[trigger] order@[j] < 12,
                forall|j: int, k: int|
                    idx <= j < order@.len() && idx <= k < order@.len() && j != k ==> #[trigger] order@[j] != #[trigger] order@[k],
                ei == order@[idx as int] as int,
                *e == edges@[ei],
                middle@ == e.2@,
                middle@ == edge_spec(ei).2,
                middle@.len() == 7,
                forall|k: int| 0 <= k < 7 ==> !corner_like(#[trigger] middle@[k]) && middle@[k].in_box(),
                forall|k: int| 0 <= k < 7 ==> (#[trigger] middle@[k]).on_surface(),
                pool@.len() >= 7,
                forall|k: int| 0 <= k < pool@.len() ==> 1 <= #[trigger] pool@[k] <= 9,
                forall|q: int| 0 <= q < perms@.len() ==> is_arrangement(#[trigger] perms@[q]@, pool@, seq![]),
                m0 == old(solution)@,
                solution@ == m0,
                forall|c: CubeCoord| corner_like(c) ==> m0.dom().contains(c),
                forall|j: int, q: int|
                    idx <= j < order@.len() && 0 <= q < 7 ==> !m0.dom().contains(#[trigger] edges@[order@[j] as int].2@[q]),
                digits_only(m0),
                arr == arrangements(pool@, seq![]),
                pool@.no_duplicates(),
                forall|x: u8| 1 <= x <= 9 && x != va && x != vb ==> pool@.contains(x),
                va == m0[*a],
                vb == m0[*b],
                *a == e.0,
                *b == e.1,
                forall|w: Seq<u8>| #[trigger] arr.contains(w) ==> exists|q: int| 0 <= q < perms@.len() && perms@[q]@ == w,
                forall|m: Map<CubeCoord, u8>, q: int|
                    0 <= q < i && #[trigger] fills_edges(m, m0, edges@, order@, idx as int) ==> (#[trigger] perms@[q])@.take(7)
                        != middle_values(m, middle@),
            decreases n - i,
        {
            let perm = &perms[i];
            let len = if perm.len() < middle.len() { perm.len() } else { middle.len() };
            assert(len == 7);
            let mut k: usize = 0;
            while k < len
                invariant
                    k <= len,
                    len == 7,
                    len <= perm@.len(),
                    middle@.len() == 7,
                    forall|k: int| 0 <= k < 7 ==> !corner_like(#[trigger] middle@[k]) && middle@[k].in_box(),
                    forall|k: int| 0 <= k < 7 ==> !m0.dom().contains(#[trigger] middle@[k]),
                    is_arrangement(perm@, pool@, seq![]),
                    forall|q: int| 0 <= q < pool@.len() ==> 1 <= #[trigger] pool@[q] <= 9,
                    digits_only(m0),
                    digits_only(solution@),
                    map_extends(solution@, m0),
                    forall|c: CubeCoord| #[trigger] solution@.dom().contains(c) ==> m0.dom().contains(c) || middle@.take(k as int).contains(c),
                    forall|q: int| 0 <= q < k ==> solution@.dom().contains(#[trigger] middle@[q]),
                    forall|q: int| 0 <= q < k ==> solution@[#[trigger] middle@[q]] == perm@[q],
                    middle@ == edge_spec(ei).2,
                decreases len - k,
            {
                assert(pool@.contains(perm@[k as int]));
                let ghost s0 = solution@;
                solution.insert(middle[k], perm[k]);
                proof {
                    assert forall|q: int| 0 <= q < k + 1 implies solution@[#[trigger] middle@[q]] == perm@[q] by {
                        if q < k {
                            assert(middle@[q] != middle@[k as int]);
                        }
                    }
                    assert forall|c: CubeCoord| #[trigger] solution@.dom().contains(c) implies m0.dom().contains(c) || middle@.take(k + 1).contains(c) by {
                        if c == middle@[k as int] {
                            assert(middle@.take(k + 1)[k as int] == c);
                        } else {
                            assert(s0.dom().contains(c));
                            if middle@.take(k as int).contains(c) {
                                let t = choose|t: int| 0 <= t < k && middle@.take(k as int)[t] == c;
                                assert(middle@.take(k + 1)[t] == c);
                            }
                        }
                    }
                }
                k += 1;
            }
            let ghost m1 = solution@;
            proof {
                if surface_keys(m0) {
                    assert forall|c: CubeCoord| #[trigger] m1.dom().contains(c) implies c.on_surface() by {
                        if !m0.dom().contains(c) {
                            assert(middle@.take(7).contains(c));
                            let t = choose|t: int| 0 <= t < 7 && middle@.take(7)[t] == c;
                            assert(middle@[t] == c);
                        }
                    }
                }
            }
            let ghost perm_v = perm@;
            proof {
                assert forall|m: Map<CubeCoord, u8>|
                    #[trigger] fills_edges(m, m0, edges@, order@, idx as int) && perm_v.take(7) == middle_values(m, middle@)
                        implies map_extends(m, m1) by {
                    assert forall|c: CubeCoord| #[trigger] m1.dom().contains(c) implies m.dom().contains(c) && m[c] == m1[c] by {
                        if !m0.dom().contains(c) {
                            assert(middle@.take(7).contains(c));
                            let t = choose|t: int| 0 <= t < 7 && middle@.take(7)[t] == c;
                            assert(middle@[t] == c);
                            assert(middle_at(edges@, order@, idx as int, t) == c);
                            assert(middle_values(m, middle@)[t] == m[c]);
                            assert(perm_v.take(7)[t] == perm_v[t]);
                        }
                    }
                }
            }
            let valid = self.edges_locally_valid(solution, a, b, middle);
            if !valid {
                proof {
                    assert forall|m: Map<CubeCoord, u8>, q: int|
                        0 <= q < i + 1 && #[trigger] fills_edges(m, m0, edges@, order@, idx as int) implies (#[trigger] perms@[q])@.take(7)
                            != middle_values(m, middle@) by {
                        if q == i && perms@[q]@.take(7) == middle_values(m, middle@) {
                            assert(map_extends(m, m1));
                            assert forall|t: int| 0 <= t < face_coords_of(middle@[0]).len() implies face_units_distinct(m1, #[trigger] face_coords_of(middle@[0])[t].face) by {
                                lemma_face_distinct_fewer(m, m1, face_coords_of(middle@[0])[t].face);
                            }
                        }
                    }
                }
            }
            if valid {
                proof {
                    assert forall|j: int, q: int|
                        next <= j < order@.len() && 0 <= q < 7 implies !m1.dom().contains(#[trigger] edges@[order@[j] as int].2@[q]) by {
                        let c = edges@[order@[j] as int].2@[q];
                        if m1.dom().contains(c) {
                            assert(!m0.dom().contains(c));
                            let t = choose|t: int| 0 <= t < 7 && middle@.take(7)[t] == c;
                            lemma_edge_middles_disjoint(ei, order@[j] as int, t, q);
                        }
                    }
                }
                if self.solve_edges(edges, order, next, solution, rng) {
                    proof {
                        assert forall|j: int, q: int|
                            idx <= j < order@.len() && 0 <= q < 7 implies solution@.dom().contains(
                                #[trigger] edges@[order@[j] as int].2@[q]) by {
                            if j == idx {
                                assert(m1.dom().contains(middle@[q]));
                            }
                        }
                        assert forall|c: CubeCoord| #[trigger] m0.dom().contains(c) implies solution@.dom().contains(c)
                            && solution@[c] == m0[c] by {
                            assert(m1.dom().contains(c));
                        }
                    }
                    return true;
                }
                proof {
                    assert forall|m: Map<CubeCoord, u8>, q: int|
                        0 <= q < i + 1 && #[trigger] fills_edges(m, m0, edges@, order@, idx as int) implies (#[trigger] perms@[q])@.take(7)
                            != middle_values(m, middle@) by {
                        if q == i && perms@[q]@.take(7) == middle_values(m, middle@) {
                            assert(map_extends(m, m1));
                            assert(fills_edges(m, m1, edges@, order@, next as int));
                        }
                    }
                }
            }
            let mut k: usize = 0;
            while k < middle.len()
                invariant
                    k <= middle@.len(),
                    middle@.len() == 7,
                    forall|k: int| 0 <= k < 7 ==> !m0.dom().contains(#[trigger] middle@[k]),
                    digits_only(solution@),
                    map_extends(solution@, m0),
                    forall|c: CubeCoord| #[trigger] solution@.dom().contains(c) ==> m0.dom().contains(c) || middle@.skip(k as int).contains(c),
                decreases middle@.len() - k,
            {
                let ghost s0 = solution@;
                solution.remove(&middle[k]);
                proof {
                    assert forall|c: CubeCoord| #[trigger] solution@.dom().contains(c) implies m0.dom().contains(c) || middle@.skip(k + 1).contains(c) by {
                        assert(s0.dom().contains(c));
                        if !m0.dom().contains(c) {
                            let t = choose|t: int| 0 <= t < middle@.skip(k as int).len() && middle@.skip(k as int)[t] == c;
                            assert(t != 0);
                            assert(middle@.skip(k + 1)[t - 1] == c);
                        }
                    }
                }
                k += 1;
            }
            proof {
                assert(solution@ =~= m0) by {
                    assert forall|c: CubeCoord| solution@.dom().contains(c) <==> m0.dom().contains(c) by {
                        if solution@.dom().contains(c) {
                            assert(middle@.skip(7).len() == 0);
                        }
                    }
                }
            }
            i += 1;
        }
        proof {
            assert forall|m: Map<CubeCoord, u8>| !#[trigger] fills_edges(m, m0, edges@, order@, idx as int) by {
                if fills_edges(m, m0, edges@, order@, idx as int) {
                    let p = middle_values(m, middle@);
                    assert(corner_like(*a));
                    assert(m0.dom().contains(*a) && m0.dom().contains(*b));
                    assert forall|k: int| 0 <= k < p.len() implies pool@.contains(#[trigger] p[k]) by {
                        assert(middle_at(edges@, order@, idx as int, k) == middle@[k]);
                        assert(m.dom().contains(middle@[k]));
                        assert(p[k] == m[middle@[k]]);
                        assert(m[*a] == va && m[*b] == vb);
                    }
                    assert(all_different(p)) by {
                        assert forall|x: int, y: int| 0 <= x < p.len() && 0 <= y < p.len() && x != y implies p[x] != p[y] by {
                            assert(middle_at(edges@, order@, idx as int, x) == middle@[x]);
                            assert(middle_at(edges@, order@, idx as int, y) == middle@[y]);
                        }
                    }
                    assert(p.take(0) =~= seq![]);
                    lemma_arrangement_begins(pool@, seq![], p);
                    let w = choose|w: Seq<u8>| #[trigger] arr.contains(w) && w.len() >= p.len() && w.take(p.len() as int) == p;
                    let q = choose|q: int| 0 <= q < perms@.len() && perms@[q]@ == w;
                    assert(perms@[q]@.take(7) == p);
                }
            }
        }
        false
    }

    /// Completes the interior of `face`: reads the face from the assignment, gives up when
    /// it already repeats a digit, otherwise solves it as a sudoku and writes all 81 values
    /// back. On success the face is fully assigned, earlier entries are kept and the face
    /// repeats no digit; on failure the assignment is left as it was, and no assignment
    /// that keeps it solves the face.
    fn solve_face(&self, face: Face, solution: &mut DigitMap, rng: &mut StdRng) -> (r: bool)
        requires
            digits_only(old(solution)@),
        ensures
            digits_only(final(solution)@),
            surface_keys(old(solution)@) ==> surface_keys(final(solution)@),
            r ==> map_extends(final(solution)@, old(solution)@) && face_solved(final(solution)@, face)
                && forall|u: u8, v: u8| u < 9 && v < 9 ==> final(solution)@.dom().contains(#[trigger] face.cube_at(u, v)),
            !r ==> final(solution)@ == old(solution)@,
            !r ==> forall|m: Map<CubeCoord, u8>| #[trigger] map_extends(m, old(solution)@) ==> !face_solved(m, face),
    {
        let mut grid = face_grid(face, solution);
        proof {
            assert forall|v: int, u: int| 0 <= v < 9 && 0 <= u < 9 implies #[trigger] grid[v][u] <= 9 by {
                assert(value_or_zero(solution@, face.cube_at(u as u8, v as u8)) <= 9);
            }
        }
        if !is_partial_valid(&grid) {
            proof {
                assert forall|m: Map<CubeCoord, u8>| #[trigger] map_extends(m, solution@) implies !face_solved(m, face) by {
                    if face_solved(m, face) {
                        lemma_solved_face_completes(solution@, m, face, grid);
                        lemma_units_distinct_down(grid_of(m, face, 9), grid);
                    }
                }
            }
            return false;
        }
        let ghost g0 = grid;
        let ghost m0 = solution@;
        if solve_sudoku(&mut grid, rng) {
            for v in 0..9u8
                invariant
                    is_completion(grid, g0),
                    is_face_grid(g0, m0, face),
                    m0 == old(solution)@,
                    digits_only(m0),
                    digits_only(solution@),
                    map_extends(solution@, m0),
                    surface_keys(m0) ==> surface_keys(solution@),
                    forall|y: int, x: int| 0 <= y < v && 0 <= x < 9 ==> lookup(solution@, #[trigger] face.cube_at(x as u8, y as u8)) == Some(grid[y][x]),
            {
                for u in 0..9u8
                    invariant
                        v < 9,
                        is_completion(grid, g0),
                        is_face_grid(g0, m0, face),
                        m0 == old(solution)@,
                        digits_only(m0),
                        digits_only(solution@),
                        map_extends(solution@, m0),
                        surface_keys(m0) ==> surface_keys(solution@),
                        forall|y: int, x: int| 0 <= y < v && 0 <= x < 9 ==> lookup(solution@, #[trigger] face.cube_at(x as u8, y as u8)) == Some(grid[y][x]),
                        forall|x: int| 0 <= x < u ==> lookup(solution@, #[trigger] face.cube_at(x as u8, v)) == Some(grid[v as int][x]),
                {
                    let coord = face.to_cube(u, v);
                    proof {
                        crate::cube::lemma_cube_at_local(face, u, v);
                    }
                    let ghost s0 = solution@;
                    solution.insert(coord, grid[v as usize][u as usize]);
                    proof {
                        if surface_keys(m0) {
                            assert forall|c: CubeCoord| #[trigger] solution@.dom().contains(c) implies c.on_surface() by {
                                if c != coord {
                                    assert(s0.dom().contains(c));
                                }
                            }
                        }
                        assert forall|c: CubeCoord| #[trigger] m0.dom().contains(c) implies solution@.dom().contains(c) && solution@[c] == m0[c] by {
                            if c == coord {
                                assert(g0[v as int][u as int] == m0[c]);
                            }
                        }
                        assert forall|y: int, x: int| 0 <= y < v && 0 <= x < 9 implies lookup(solution@, #[trigger] face.cube_at(x as u8, y as u8)) == Some(grid[y][x]) by {
                            if face.cube_at(x as u8, y as u8) == coord {
                                crate::cube::lemma_cube_at_local(face, x as u8, y as u8);
                            }
                        }
                        assert forall|x: int| 0 <= x < u + 1 implies lookup(solution@, #[trigger] face.cube_at(x as u8, v)) == Some(grid[v as int][x]) by {
                            if x < u && face.cube_at(x as u8, v) == coord {
                                crate::cube::lemma_cube_at_local(face, x as u8, v);
                            }
                        }
                    }
                }
            }
            proof {
                assert(is_face_grid(grid, solution@, face)) by {
                    assert forall|v: int, u: int| 0 <= v < 9 && 0 <= u < 9 implies #[trigger] grid[v][u] == value_or_zero(solution@, face.cube_at(u as u8, v as u8)) by {
                        assert(lookup(solution@, face.cube_at(u as u8, v as u8)) == Some(grid[v][u]));
                    }
                }
                lemma_grid_solved_iff(grid);
                lemma_face_grid_units(grid, solution@, face);
                assert forall|u: u8, v: u8| u < 9 && v < 9 implies solution@.dom().contains(#[trigger] face.cube_at(u, v)) by {
                    assert(lookup(solution@, face.cube_at(u as u8, v as u8)) == Some(grid[v as int][u as int]));
                }
            }
            true
        } else {
            proof {
                assert forall|m: Map<CubeCoord, u8>| #[trigger] map_extends(m, m0) implies !face_solved(m, face) by {
                    if face_solved(m, face) {
                        lemma_solved_face_completes(m0, m, face, g0);
                    }
                }
            }
            false
        }
    }

    /// One attempt at a full solution: corners, then edges in a random order, then each
    /// face interior; the result is returned only when it passes `verify_solution`. The
    /// corners always succeed; whether the edges and faces can then be completed depends on
    /// the digits and orders drawn at random.
    fn try_generate(&self, rng: &mut StdRng) -> (r: Option<DigitMap>)
        ensures
            r matches Some(s) ==> solution_valid(s@) && surface_keys(s@) && digits_only(s@),
    {
        let mut solution = DigitMap::new();
        let corners = corner_coords();
        proof {
            lemma_corners_shape();
        }
        if !self.solve_vertices(&corners, &mut solution, rng) {
            return None;
        }
        proof {
            assert forall|c: CubeCoord| #[trigger] solution@.dom().contains(c) implies c.on_surface() by {
                assert(corner_like(c));
            }
            assert forall|c: CubeCoord| corner_like(c) implies solution@.dom().contains(c) by {
                lemma_corner_index(c);
            }
        }
        let edges = edge_segments();
        let mut edge_order: Vec<usize> = Vec::with_capacity(12);
        for k in 0..12usize
            invariant
                edge_order@ == Seq::new(k as nat, |j: int| j as usize),
        {
            edge_order.push(k);
            assert(edge_order@ =~= Seq::new((k + 1) as nat, |j: int| j as usize));
        }
        let ghost before = edge_order@;
        shuffle(&mut edge_order, rng);
        proof {
            lemma_shuffled_same_members(before, edge_order@);
            before.lemma_multiset_has_no_duplicates();
            edge_order@.lemma_multiset_has_no_duplicates_conv();
            assert forall|j: int| 0 <= j < edge_order@.len() implies #[trigger] edge_order@[j] < 12 by {
                assert(before.contains(edge_order@[j]));
            }
            assert forall|j: int, q: int|
                0 <= j < edge_order@.len() && 0 <= q < 7 implies !solution@.dom().contains(
                    #[trigger] edges@[edge_order@[j] as int].2@[q]) by {
                lemma_edge_shape(edge_order@[j] as int);
            }
        }
        if !self.solve_edges(&edges, &edge_order, 0, &mut solution, rng) {
            return None;
        }
        let faces = Face::all();
        for i in 0..6usize
            invariant
                digits_only(solution@),
                surface_keys(solution@),
        {
            if !self.solve_face(faces[i], &mut solution, rng) {
                return None;
            }
        }
        if verify_solution(&solution) {
            Some(solution)
        } else {
            None
        }
    }

    /// A full solution of the cube, trying up to 2000 times; `None` when every attempt
    /// failed (which attempts fail depends on the random draws). A returned solution is
    /// always valid on every face.
    pub fn generate(&mut self, rng: &mut StdRng) -> (r: Option<DigitMap>)
        ensures
            r matches Some(s) ==> solution_valid(s@) && surface_keys(s@) && digits_only(s@),
    {
        for _attempt in 0..2000u32 {
            if let Some(solution) = self.try_generate(rng) {
                return Some(solution);
            }
        }
        None
    }

    /// Assigns all corners in a random order (see `backtrack_vertices`); it always succeeds
    /// when only corners are assigned.
    fn solve_vertices(&self, corners: &[CubeCoord], solution: &mut DigitMap, rng: &mut StdRng) -> (r: bool)
        requires
            forall|j: int| 0 <= j < corners@.len() ==> (#[trigger] corners@[j]).in_box(),
            corners@.no_duplicates(),
            forall|j: int| 0 <= j < corners@.len() ==> !old(solution)@.dom().contains(#[trigger] corners@[j]),
            digits_only(old(solution)@),
            conflict_free(old(solution)@),
            forall|j: int| 0 <= j < corners@.len() ==> corner_like(#[trigger] corners@[j]),
        ensures
            digits_only(final(solution)@),
            conflict_free(final(solution)@),
            forall|c: CubeCoord| #[trigger] final(solution)@.dom().contains(c) ==> old(solution)@.dom().contains(c) || corner_like(c),
            r ==> map_extends(final(solution)@, old(solution)@) && forall|j: int|
                0 <= j < corners@.len() ==> final(solution)@.dom().contains(#[trigger] corners@[j]),
            !r ==> final(solution)@ == old(solution)@,
            corners_only(old(solution)@) ==> r,
    {
        let mut order: Vec<usize> = Vec::with_capacity(corners.len());
        for k in 0..corners.len()
            invariant
                order@ == Seq::new(k as nat, |j: int| j as usize),
        {
            order.push(k);
            assert(order@ =~= Seq::new((k + 1) as nat, |j: int| j as usize));
        }
        let ghost before = order@;
        proof {
            assert(before.no_duplicates());
        }
        shuffle(&mut order, rng);
        proof {
            lemma_shuffled_same_members(before, order@);
            before.lemma_multiset_has_no_duplicates();
            order@.lemma_multiset_has_no_duplicates_conv();
            assert forall|j: int| 0 <= j < order@.len() implies #[trigger] order@[j] < corners@.len() by {
                assert(before.contains(order@[j]));
            }
            assert forall|j: int, k: int|
                0 <= j < order@.len() && 0 <= k < order@.len() && j != k implies #[trigger] corners@[order@[j] as int]
                    != #[trigger] corners@[order@[k] as int] by {
                assert(before.contains(order@[j]));
                assert(before.contains(order@[k]));
            }
        }
        let r = self.backtrack_vertices(corners, &order, 0, solution, rng);
        proof {
            if r {
                assert forall|j: int| 0 <= j < corners@.len() implies final(solution)@.dom().contains(#[trigger] corners@[j]) by {
                    assert(before[j] == j as usize);
                    assert(before.contains(j as usize));
                    assert(order@.contains(j as usize));
                    let k = choose|k: int| 0 <= k < order@.len() && order@[k] == j as usize;
                    assert(solution@.dom().contains(corners@[order@[k] as int]));
                }
            }
        }
        r
    }
}

/// Every coordinate is `0` or `8`: a corner of the cube.
pub open spec fn corner_like(c: CubeCoord) -> bool {
    (c.x == 0 || c.x == 8) && (c.y == 0 || c.y == 8) && (c.z == 0 || c.z == 8)
}

/// The corners are distinct in-box corner-like coordinates.
proof fn lemma_corners_shape()
    ensures
        corners_spec().no_duplicates(),
        forall|j: int| 0 <= j < 8 ==> (#[trigger] corners_spec()[j]).in_box() && corner_like(corners_spec()[j]),
{
    assert forall|j: int, k: int| 0 <= j < 8 && 0 <= k < 8 && j != k implies corners_spec()[j] != corners_spec()[k] by {}
}

/// Every corner-like coordinate is one of the eight corners.
proof fn lemma_corner_index(c: CubeCoord)
    requires
        corner_like(c),
    ensures
        corners_spec().contains(c),
{
    let i = (if c.x == 8 { 4int } else { 0int }) + (if c.y == 8 { 2int } else { 0int }) + (if c.z == 8 { 1int } else { 0int });
    assert(corners_spec()[i] == c);
}

/// Distinct edges share no middle coordinate.
proof fn lemma_edge_middles_disjoint(i: int, j: int, t: int, q: int)
    requires
        0 <= i < 12,
        0 <= j < 12,
        0 <= t < 7,
        0 <= q < 7,
        edge_spec(i).2[t] == edge_spec(j).2[q],
    ensures
        i == j,
{
}

/// The endpoints of an edge are corners and its seven middles are in-box non-corners.
proof fn lemma_edge_shape(i: int)
    requires
        0 <= i < 12,
    ensures
        corner_like(edge_spec(i).0),
        corner_like(edge_spec(i).1),
        edge_spec(i).2.len() == 7,
        forall|k: int| 0 <= k < 7 ==> !corner_like(#[trigger] edge_spec(i).2[k]) && edge_spec(i).2[k].in_box(),
        forall|k: int| 0 <= k < 7 ==> (#[trigger] edge_spec(i).2[k]).on_surface(),
{
}

/// A cell `(u, v)` of a face sits at place `p` of box `k`, counted row by row.
proof fn lemma_box_place(u: int, v: int)
    requires
        0 <= u < 9,
        0 <= v < 9,
    ensures
        ({
            let k = (v / 3) * 3 + u / 3;
            let p = (v % 3) * 3 + u % 3;
            &&& 0 <= k < 9
            &&& 0 <= p < 9
            &&& (k % 3) * 3 + p % 3 == u
            &&& (k / 3) * 3 + p / 3 == v
        }),
{
    assert(0 <= u / 3 < 3 && 0 <= v / 3 < 3 && 0 <= u % 3 < 3 && 0 <= v % 3 < 3);
    assert(u == (u / 3) * 3 + u % 3);
    assert(v == (v / 3) * 3 + v % 3);
    let k = (v / 3) * 3 + u / 3;
    let p = (v % 3) * 3 + u % 3;
    assert(k % 3 == u / 3 && k / 3 == v / 3);
    assert(p % 3 == u % 3 && p / 3 == v % 3);
}

/// Two different cells that share a row, a column or a box of a solved face hold different
/// digits.
#[verifier::spinoff_prover]
proof fn lemma_face_unit_distinct(m: Map<CubeCoord, u8>, f: Face, a: CubeCoord, b: CubeCoord)
    requires
        face_solved(m, f),
        crate::cube::unit_on_face(f, a, b),
        a != b,
        a.in_box(),
        b.in_box(),
    ensures
        value_or_zero(m, a) != value_or_zero(m, b),
        value_or_zero(m, a) != 0,
{
    crate::cube::lemma_local_cube_at(f, a);
    crate::cube::lemma_local_cube_at(f, b);
    let ua = f.local_u(a);
    let va = f.local_v(a);
    let ub = f.local_u(b);
    let vb = f.local_v(b);
    assert(ua < 9 && va < 9 && ub < 9 && vb < 9);
    if ua == ub {
        let col = face_col(m, f, ua as int);
        assert(complete_unit(col));
        assert(col[va as int] == value_or_zero(m, a));
        assert(col[vb as int] == value_or_zero(m, b));
        assert(va != vb);
    } else if va == vb {
        let row = face_row(m, f, va as int);
        assert(complete_unit(row));
        assert(row[ua as int] == value_or_zero(m, a));
        assert(row[ub as int] == value_or_zero(m, b));
    } else {
        let k = (va / 3) * 3 + ua / 3;
        let pa = (va % 3) * 3 + ua % 3;
        let pb = (vb % 3) * 3 + ub % 3;
        lemma_box_place(ua as int, va as int);
        lemma_box_place(ub as int, vb as int);
        assert(k == (vb / 3) * 3 + ub / 3);
        let bx = face_box(m, f, k);
        assert(complete_unit(bx));
        assert(bx[pa] == value_or_zero(m, a));
        assert(bx[pb] == value_or_zero(m, b));
        assert(pa != pb);
    }
}

/// An assignment of surface cells whose every face is solved is a solution of the cube:
/// it fills the whole surface, with digits 1 to 9, and related cells differ.
pub proof fn lemma_valid_is_solution(m: Map<CubeCoord, u8>)
    requires
        solution_valid(m),
        surface_keys(m),
    ensures
        crate::puzzle::is_solution(m),
{
    assert forall|c: CubeCoord| c.on_surface() implies #[trigger] m.dom().contains(c) && 1 <= m[c] <= 9 by {
        let f = if c.x == 0 {
            Face::Left
        } else if c.x == 8 {
            Face::Right
        } else if c.y == 0 {
            Face::Bottom
        } else if c.y == 8 {
            Face::Top
        } else if c.z == 0 {
            Face::Back
        } else {
            Face::Front
        };
        assert(f.holds(c));
        crate::cube::lemma_local_cube_at(f, c);
        let u = f.local_u(c);
        let v = f.local_v(c);
        assert(face_solved(m, f));
        let row = face_row(m, f, v as int);
        assert(complete_unit(row));
        assert(row[u as int] == value_or_zero(m, c));
    }
    assert forall|c: CubeCoord| #[trigger] m.dom().contains(c) <==> c.on_surface() by {}
    assert forall|c: CubeCoord, d: CubeCoord|
        #![trigger m[c], m[d]]
        m.dom().contains(c) && m.dom().contains(d) && crate::cube::related_spec(c, d) implies m[c] != m[d] by {
        assert(c.on_surface() && d.on_surface());
        if crate::cube::unit_on_face(Face::Right, c, d) {
            lemma_face_unit_distinct(m, Face::Right, c, d);
        } else if crate::cube::unit_on_face(Face::Left, c, d) {
            lemma_face_unit_distinct(m, Face::Left, c, d);
        } else if crate::cube::unit_on_face(Face::Top, c, d) {
            lemma_face_unit_distinct(m, Face::Top, c, d);
        } else if crate::cube::unit_on_face(Face::Bottom, c, d) {
            lemma_face_unit_distinct(m, Face::Bottom, c, d);
        } else if crate::cube::unit_on_face(Face::Front, c, d) {
            lemma_face_unit_distinct(m, Face::Front, c, d);
        } else {
            lemma_face_unit_distinct(m, Face::Back, c, d);
        }
    }
}

} // verus!
