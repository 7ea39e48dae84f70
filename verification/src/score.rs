//! Heuristic dense-region scores. No approximation ratio is claimed.

use vstd::prelude::*;
use vstd::arithmetic::div_mod::{lemma_fundamental_div_mod, lemma_mod_pos_bound};

verus! {

/// A candidate dense region: its density in thousandths, the heuristic that found it,
/// and the row and column where it starts.
#[derive(Debug, Clone, PartialEq, Eq)]
pub struct DensityScore {
    pub milli: u64,
    pub kind: &'static str,
    pub rows: usize,
    pub cols: usize,
}

// ---------------------------------------------------------------------------
// Integer square root
// ---------------------------------------------------------------------------

/// `t * t <= v`.
pub open spec fn square_at_most(t: int, v: int) -> bool {
    t * t <= v
}

/// `r` is the integer square root of `v`: `r * r <= v < (r + 1) * (r + 1)`.
pub open spec fn is_floor_sqrt(r: int, v: int) -> bool {
    0 <= r && r * r <= v && v < (r + 1) * (r + 1)
}

/// The integer square root of `v`.
pub open spec fn floor_sqrt(v: int) -> int {
    choose|r: int| is_floor_sqrt(r, v)
}

/// The integer square root is unique.
pub proof fn lemma_floor_sqrt_unique(r: int, v: int)
    requires
        is_floor_sqrt(r, v),
    ensures
        floor_sqrt(v) == r,
{
    let s = floor_sqrt(v);
    assert(is_floor_sqrt(s, v));
    if s < r {
        assert((s + 1) * (s + 1) <= r * r) by (nonlinear_arith)
            requires
                0 <= s,
                s + 1 <= r,
        ;
    } else if r < s {
        assert((r + 1) * (r + 1) <= s * s) by (nonlinear_arith)
            requires
                0 <= r,
                r + 1 <= s,
        ;
    }
}

/// One Newton step towards the square root of `v` from `h`, with the sum saturating at `u64::MAX`.
pub open spec fn next_guess(h: int, v: int) -> int {
    let s = h + v / h;
    (if s > u64::MAX { u64::MAX as int } else { s }) / 2
}

/// A Newton step never falls below any `t` with `t * t <= v`.
proof fn lemma_guess_stays_above(h: int, v: int, t: int)
    requires
        1 <= h <= u64::MAX,
        0 <= v <= u64::MAX,
        0 <= t,
        t * t <= v,
    ensures
        t <= next_guess(h, v),
{
    let q = v / h;
    let r = v % h;
    lemma_fundamental_div_mod(v, h);
    lemma_mod_pos_bound(v, h);
    assert(q >= 0) by (nonlinear_arith)
        requires
            v == h * q + r,
            0 <= r < h,
            v >= 0,
            h >= 1,
    ;
    if t >= 0x1_0000_0000 {
        assert(t * t >= 0x1_0000_0000 * 0x1_0000_0000) by (nonlinear_arith)
            requires
                t >= 0x1_0000_0000,
        ;
    }
    if h + q < 2 * t {
        assert(h * (q + 1) <= h * (2 * t - h)) by (nonlinear_arith)
            requires
                h >= 1,
                q + 1 <= 2 * t - h,
        ;
        assert(v < h * (q + 1)) by (nonlinear_arith)
            requires
                v == h * q + r,
                r < h,
        ;
        assert(h * (2 * t - h) == 2 * (t * h) - h * h) by (nonlinear_arith);
        assert((t - h) * (t - h) == t * t - 2 * (t * h) + h * h) by (nonlinear_arith);
        assert((t - h) * (t - h) >= 0) by (nonlinear_arith);
    }
}

/// Above the square root a Newton step strictly descends.
proof fn lemma_guess_descends(h: int, v: int)
    requires
        1 <= h <= u64::MAX,
        0 <= v <= u64::MAX,
        h * h > v,
    ensures
        next_guess(h, v) < h,
{
    let q = v / h;
    let r = v % h;
    lemma_fundamental_div_mod(v, h);
    lemma_mod_pos_bound(v, h);
    assert(q < h) by (nonlinear_arith)
        requires
            v == h * q + r,
            0 <= r,
            h * h > v,
            h >= 1,
    ;
}

/// The integer square root of `value`, by Newton's method.
fn isqrt(value: u64) -> (r: u64)
    ensures
        is_floor_sqrt(r as int, value as int),
{
    if value == 0 {
        return 0;
    }
    if value == 1 {
        return 1;
    }
    let mut high: u64 = value;
    let mut low: u64 = value.saturating_add(1) / 2;
    assert(value as int / value as int == 1) by (nonlinear_arith)
        requires
            value >= 2,
    ;
    assert forall|t: int| 0 <= t && #[trigger] square_at_most(t, value as int) implies t <= value by {
        if t > value {
            assert(t * t > t * 1) by (nonlinear_arith)
                requires
                    t > 1,
            ;
        }
    }
    while low < high
        invariant
            2 <= value,
            1 <= high <= value,
            low == next_guess(high as int, value as int),
            forall|t: int| 0 <= t && #[trigger] square_at_most(t, value as int) ==> t <= high,
        decreases high,
    {
        assert forall|t: int| 0 <= t && #[trigger] square_at_most(t, value as int) implies t <= low by {
            lemma_guess_stays_above(high as int, value as int, t);
        }
        assert(square_at_most(1, value as int));
        high = low;
        low = high.saturating_add(value / high) / 2;
    }
    proof {
        if high as int * high as int > value as int {
            lemma_guess_descends(high as int, value as int);
        }
        if (high as int + 1) * (high as int + 1) <= value as int {
            assert(square_at_most(high as int + 1, value as int));
        }
    }
    high
}

// ---------------------------------------------------------------------------
// Densities
// ---------------------------------------------------------------------------

/// `a * b` for a natural `a`, saturating at `u64::MAX`.
pub open spec fn saturating_u64(x: int) -> int {
    if x > u64::MAX {
        u64::MAX as int
    } else {
        x
    }
}

/// Mass over the square root of area, both scaled by a million: thousandths of mass per side.
pub open spec fn density_milli_spec(sum: int, area: int) -> int {
    let root = floor_sqrt(saturating_u64(area * 1_000_000));
    saturating_u64(sum * 1_000_000) / (if root < 1 { 1 } else { root })
}

fn saturating_mul_u64(a: u64, b: u64) -> (r: u64)
    ensures
        r == saturating_u64(a * b),
{
    match a.checked_mul(b) {
        Some(p) => p,
        None => u64::MAX,
    }
}

fn density_milli(sum: u64, area: usize) -> (r: u64)
    ensures
        r == density_milli_spec(sum as int, area as int),
{
    let area = area as u64;
    let scaled = saturating_mul_u64(area, 1_000_000);
    let root = isqrt(scaled);
    proof {
        lemma_floor_sqrt_unique(root as int, scaled as int);
    }
    let root = if root < 1 { 1 } else { root };
    saturating_mul_u64(sum, 1_000_000) / root
}

/// `a * b` for `usize`, saturating at `usize::MAX`.
pub open spec fn saturating_usize(x: int) -> int {
    if x > usize::MAX {
        usize::MAX as int
    } else {
        x
    }
}

fn saturating_mul_usize(a: usize, b: usize) -> (r: usize)
    ensures
        r == saturating_usize(a * b),
{
    match a.checked_mul(b) {
        Some(p) => p,
        None => usize::MAX,
    }
}

/// The value of cell `(row, col)`, or 0 where its saturated index lies past the matrix.
pub open spec fn cell_at(matrix: Seq<u64>, width: usize, row: usize, col: usize) -> int {
    let index = saturating_usize(saturating_usize(row * width) + col);
    if index < matrix.len() {
        matrix[index] as int
    } else {
        0
    }
}

/// The mass of one row over the given columns.
pub open spec fn row_total(matrix: Seq<u64>, width: usize, row: usize, cols: Seq<usize>) -> int
    decreases cols.len(),
{
    if cols.len() == 0 {
        0
    } else {
        row_total(matrix, width, row, cols.drop_last()) + cell_at(matrix, width, row, cols.last())
    }
}

/// The mass of the submatrix of the given rows and columns.
pub open spec fn block_total(matrix: Seq<u64>, width: usize, rows: Seq<usize>, cols: Seq<usize>) -> int
    decreases rows.len(),
{
    if rows.len() == 0 {
        0
    } else {
        block_total(matrix, width, rows.drop_last(), cols) + row_total(matrix, width, rows.last(), cols)
    }
}

/// The density of one supplied submatrix, its mass saturating at `u64::MAX`.
pub open spec fn submatrix_density_spec(matrix: Seq<u64>, width: usize, rows: Seq<usize>, cols: Seq<usize>) -> int {
    if rows.len() == 0 || cols.len() == 0 {
        0
    } else {
        density_milli_spec(
            saturating_u64(block_total(matrix, width, rows, cols)),
            saturating_usize(rows.len() as int * cols.len() as int),
        )
    }
}

pub proof fn lemma_totals_nonnegative(matrix: Seq<u64>, width: usize, rows: Seq<usize>, cols: Seq<usize>, row: usize)
    ensures
        row_total(matrix, width, row, cols) >= 0,
        block_total(matrix, width, rows, cols) >= 0,
    decreases rows.len() + cols.len(),
{
    if cols.len() > 0 {
        lemma_totals_nonnegative(matrix, width, Seq::empty(), cols.drop_last(), row);
    }
    if rows.len() > 0 {
        lemma_totals_nonnegative(matrix, width, rows.drop_last(), cols, rows.last());
    }
}

/// Exact density of one supplied submatrix, in thousandths.
pub fn submatrix_density(matrix: &[u64], width: usize, rows: &[usize], cols: &[usize]) -> (r: u64)
    ensures
        r == submatrix_density_spec(matrix@, width, rows@, cols@),
{
    if rows.len() == 0 || cols.len() == 0 {
        return 0;
    }
    let ghost m = matrix@;
    let mut sum: u64 = 0;
    let mut i: usize = 0;
    while i < rows.len()
        invariant
            m == matrix@,
            i <= rows@.len(),
            sum == saturating_u64(block_total(m, width, rows@.take(i as int), cols@)),
        decreases rows@.len() - i,
    {
        let row = rows[i];
        let ghost before = block_total(m, width, rows@.take(i as int), cols@);
        proof {
            lemma_totals_nonnegative(m, width, rows@.take(i as int), cols@, row);
        }
        let mut j: usize = 0;
        while j < cols.len()
            invariant
                m == matrix@,
                j <= cols@.len(),
                before >= 0,
                sum == saturating_u64(before + row_total(m, width, row, cols@.take(j as int))),
            decreases cols@.len() - j,
        {
            let col = cols[j];
            let index = saturating_mul_usize(row, width).saturating_add(col);
            proof {
                assert(cols@.take(j + 1).drop_last() =~= cols@.take(j as int));
                assert(cols@.take(j + 1).last() == col);
                lemma_totals_nonnegative(m, width, Seq::empty(), cols@.take(j as int), row);
            }
            if index < matrix.len() {
                sum = sum.saturating_add(matrix[index]);
            }
            j += 1;
        }
        proof {
            assert(cols@.take(cols@.len() as int) =~= cols@);
            assert(rows@.take(i + 1).drop_last() =~= rows@.take(i as int));
            assert(rows@.take(i + 1).last() == row);
        }
        i += 1;
    }
    assert(rows@.take(rows@.len() as int) =~= rows@);
    density_milli(sum, saturating_mul_usize(rows.len(), cols.len()))
}

/// The first largest value among `s` and where it stands; `(0, 0)` when all are zero.
pub open spec fn scan_peak(s: Seq<u64>) -> (u64, int)
    decreases s.len(),
{
    if s.len() == 0 {
        (0, 0)
    } else {
        let prev = scan_peak(s.drop_last());
        if s.last() > prev.0 {
            (s.last(), s.len() - 1)
        } else {
            prev
        }
    }
}

proof fn lemma_scan_peak_bounds(s: Seq<u64>)
    ensures
        0 <= scan_peak(s).1,
        s.len() > 0 ==> scan_peak(s).1 < s.len(),
    decreases s.len(),
{
    if s.len() > 0 {
        lemma_scan_peak_bounds(s.drop_last());
    }
}

/// The score `heuristic_density` gives: the peak cell of the first `width * width` counters
/// over the square root of `width`, in thousandths, at the peak's row and column.
pub open spec fn heuristic_density_spec(matrix: Seq<u64>, width: usize) -> DensityScore {
    if width == 0 || matrix.len() < saturating_usize(width * width) {
        DensityScore { milli: 0, kind: "heuristic", rows: 0, cols: 0 }
    } else {
        let peak = scan_peak(matrix.take(width * width));
        DensityScore {
            milli: density_milli_spec(peak.0 as int, width as int) as u64,
            kind: "heuristic",
            rows: (peak.1 / width as int) as usize,
            cols: (peak.1 % width as int) as usize,
        }
    }
}

/// Peak cell over sqrt(width), in thousandths. A candidate score, not an optimum.
pub fn heuristic_density(matrix: &[u64], width: usize) -> (r: DensityScore)
    requires
        matrix@.len() <= isize::MAX,
    ensures
        r == heuristic_density_spec(matrix@, width),
{
    if width == 0 || matrix.len() < saturating_mul_usize(width, width) {
        return DensityScore { milli: 0, kind: "heuristic", rows: 0, cols: 0 };
    }
    let n = width * width;
    let ghost m = matrix@;
    let mut peak: u64 = 0;
    let mut at: usize = 0;
    let mut i: usize = 0;
    while i < n
        invariant
            m == matrix@,
            n <= m.len(),
            i <= n,
            (peak, at as int) == scan_peak(m.take(i as int)),
        decreases n - i,
    {
        proof {
            assert(m.take(i + 1).drop_last() =~= m.take(i as int));
            assert(m.take(i + 1).last() == m[i as int]);
        }
        if matrix[i] > peak {
            peak = matrix[i];
            at = i;
        }
        i += 1;
    }
    proof {
        lemma_scan_peak_bounds(m.take(n as int));
    }
    let milli = density_milli(peak, width);
    DensityScore { milli, kind: "heuristic", rows: at / width, cols: at % width }
}

/// The density of the 2-by-2 block whose top-left cell is `(row, col)`.
pub open spec fn block_density(matrix: Seq<u64>, width: usize, row: usize, col: usize) -> int {
    submatrix_density_spec(matrix, width, seq![row, (row + 1) as usize], seq![col, (col + 1) as usize])
}

/// The best of `best` and the first `ncols` blocks of row `row`, earlier blocks winning ties.
pub open spec fn scan_block_row(
    matrix: Seq<u64>,
    width: usize,
    row: usize,
    ncols: nat,
    best: (u64, usize, usize),
) -> (u64, usize, usize)
    decreases ncols,
{
    if ncols == 0 {
        best
    } else {
        let prev = scan_block_row(matrix, width, row, (ncols - 1) as nat, best);
        let d = block_density(matrix, width, row, (ncols - 1) as usize);
        if d > prev.0 {
            (d as u64, row, (ncols - 1) as usize)
        } else {
            prev
        }
    }
}

/// The best of `best` and the blocks of the first `nrows` rows, row by row.
pub open spec fn scan_blocks(matrix: Seq<u64>, width: usize, nrows: nat, best: (u64, usize, usize)) -> (u64, usize, usize)
    decreases nrows,
{
    if nrows == 0 {
        best
    } else {
        scan_block_row(
            matrix,
            width,
            (nrows - 1) as usize,
            (width - 1) as nat,
            scan_blocks(matrix, width, (nrows - 1) as nat, best),
        )
    }
}

/// The score `group_density` gives: the densest 2-by-2 block, if denser than the peak cell.
pub open spec fn group_density_spec(matrix: Seq<u64>, width: usize) -> DensityScore {
    let peak = heuristic_density_spec(matrix, width);
    if width < 2 {
        DensityScore { kind: "group", ..peak }
    } else {
        let best = scan_blocks(matrix, width, (width - 1) as nat, (peak.milli, peak.rows, peak.cols));
        DensityScore { milli: best.0, kind: "group", rows: best.1, cols: best.2 }
    }
}

/// Best 2-by-2 block density, falling back to the peak cell. A candidate only.
pub fn group_density(matrix: &[u64], width: usize) -> (r: DensityScore)
    requires
        matrix@.len() <= isize::MAX,
    ensures
        r == group_density_spec(matrix@, width),
{
    let peak = heuristic_density(matrix, width);
    if width < 2 {
        return DensityScore { milli: peak.milli, kind: "group", rows: peak.rows, cols: peak.cols };
    }
    let ghost m = matrix@;
    let ghost start = (peak.milli, peak.rows, peak.cols);
    let mut best: u64 = peak.milli;
    let mut at_row: usize = peak.rows;
    let mut at_col: usize = peak.cols;
    let mut row: usize = 0;
    while row < width - 1
        invariant
            m == matrix@,
            2 <= width,
            row <= width - 1,
            (best, at_row, at_col) == scan_blocks(m, width, row as nat, start),
        decreases width - 1 - row,
    {
        let mut col: usize = 0;
        let ghost before = (best, at_row, at_col);
        while col < width - 1
            invariant
                m == matrix@,
                2 <= width,
                row < width - 1,
                col <= width - 1,
                (best, at_row, at_col) == scan_block_row(m, width, row, col as nat, before),
            decreases width - 1 - col,
        {
            let rows: [usize; 2] = [row, row + 1];
            let cols: [usize; 2] = [col, col + 1];
            assert(rows@ =~= seq![row, (row + 1) as usize]);
            assert(cols@ =~= seq![col, (col + 1) as usize]);
            let milli = submatrix_density(matrix, width, &rows, &cols);
            if milli > best {
                best = milli;
                at_row = row;
                at_col = col;
            }
            col += 1;
        }
        row += 1;
    }
    DensityScore { milli: best, kind: "group", rows: at_row, cols: at_col }
}

/// The cell of the counterexample matrix at `index`: ones along row 0 past the corner,
/// twos on the diagonal past the corner, zeros elsewhere.
pub open spec fn counterexample_cell(width: usize, index: int) -> u64 {
    let row = index / width as int;
    let col = index % width as int;
    if width < 2 {
        0
    } else if row == 0 && col >= 1 {
        1
    } else if row == col && row >= 1 {
        2
    } else {
        0
    }
}

/// A `width * width` matrix on which the peak-cell heuristic is not a 2-approximation.
pub fn anograph_counterexample(width: usize) -> (r: Vec<u64>)
    requires
        width as int * width as int * 8 <= isize::MAX,
    ensures
        r@.len() == width as int * width as int,
        forall|i: int| 0 <= i < r@.len() ==> #[trigger] r@[i] == counterexample_cell(width, i),
{
    assert(width as int * width as int <= usize::MAX) by (nonlinear_arith)
        requires
            width as int * width as int * 8 <= isize::MAX,
            isize::MAX <= usize::MAX,
    ;
    let n = width * width;
    let mut matrix: Vec<u64> = Vec::new();
    let mut i: usize = 0;
    while i < n
        invariant
            n == width as int * width as int,
            i <= n,
            matrix@.len() == i,
            forall|j: int| 0 <= j < i ==> #[trigger] matrix@[j] == counterexample_cell(width, j),
        decreases n - i,
    {
        let value: u64 = if width < 2 {
            0
        } else if i / width == 0 && i % width >= 1 {
            1
        } else if i / width == i % width && i / width >= 1 {
            2
        } else {
            0
        };
        matrix.push(value);
        i += 1;
    }
    matrix
}

} // verus!
