//! The convolution engine: horizontal (`Dx`) and vertical (`Dy`)
//! discrete gradients of a row-major grid of unsigned 8-bit samples,
//! taken against the kernel [-1, 0, 1] with an edge padding of width
//! 2 on each side. Every 8-bit sample is promoted to signed 16 bits
//! before any negation or subtraction, so no result can overflow.

use vstd::arithmetic::div_mod::lemma_fundamental_div_mod;
use vstd::arithmetic::div_mod::lemma_fundamental_div_mod_converse;
use vstd::arithmetic::div_mod::lemma_mod_bound;
use vstd::prelude::*;

verus! {

/// Value of the horizontal-gradient cell at output row `row`, output
/// column `j`, for a grid of `cols` columns. The output row is `cols
/// + 2` cells wide. The two cells at each edge come from the padding
/// policy (forward addressing): the outermost pair copy or negate the
/// grid's outermost columns, the next pair its second columns when
/// they exist; interior cells hold the difference of the samples two
/// columns apart that the kernel [-1, 0, 1] selects.
pub open spec fn dx_cell(arr: Seq<u8>, cols: int, row: int, j: int) -> int {
    if cols == 0 {
        0
    } else if j == 0 {
        -(arr[row * cols] as int)
    } else if j == cols + 1 {
        arr[row * cols + cols - 1] as int
    } else if cols > 1 && j == 1 {
        -(arr[row * cols + 1] as int)
    } else if cols > 1 && j == cols {
        arr[row * cols + cols - 2] as int
    } else if cols > 2 && 2 <= j < cols {
        arr[row * cols + j - 2] as int - arr[row * cols + j] as int
    } else {
        0
    }
}

/// The whole horizontal-gradient buffer: `rows` rows of `cols + 2`
/// signed 16-bit cells, flattened row-major.
pub open spec fn dx_spec(arr: Seq<u8>, rows: int, cols: int) -> Seq<i16> {
    Seq::new(
        (rows * (cols + 2)) as nat,
        |i: int| dx_cell(arr, cols, i / (cols + 2), i % (cols + 2)) as i16,
    )
}

/// Value of the vertical-gradient cell at output row `r`, output
/// column `c`, for a grid of `rows` rows and `cols` columns. The
/// output is `rows + 2` rows tall. The two rows at each edge come
/// from the padding policy (mirrored addressing in the flat buffer,
/// which lands each padding value on the column it was read from):
/// the outermost pair copy or negate the grid's outermost rows, the
/// next pair its second rows when they exist; interior cells hold the
/// difference of the samples two rows apart that the kernel
/// [-1, 0, 1] selects.
pub open spec fn dy_cell(arr: Seq<u8>, rows: int, cols: int, r: int, c: int) -> int {
    if rows == 0 {
        0
    } else if r == 0 {
        -(arr[c] as int)
    } else if r == rows + 1 {
        arr[(rows - 1) * cols + c] as int
    } else if rows > 1 && r == 1 {
        -(arr[cols + c] as int)
    } else if rows > 1 && r == rows {
        arr[(rows - 2) * cols + c] as int
    } else if rows > 2 && 2 <= r < rows {
        arr[(r - 2) * cols + c] as int - arr[r * cols + c] as int
    } else {
        0
    }
}

/// The whole vertical-gradient buffer: `rows + 2` rows of `cols`
/// signed 16-bit cells, flattened row-major.
pub open spec fn dy_spec(arr: Seq<u8>, rows: int, cols: int) -> Seq<i16> {
    Seq::new(
        (cols * (rows + 2)) as nat,
        |i: int| dy_cell(arr, rows, cols, i / cols, i % cols) as i16,
    )
}

/// Output columns filled by the padding pass of the horizontal
/// gradient: the outermost pair always, the second pair only when the
/// grid is at least two columns wide.
spec fn dx_border_col(cols: int, j: int) -> bool {
    j == 0 || j == cols + 1 || (cols > 1 && (j == 1 || j == cols))
}

/// Buffer contents while the padding pass of the horizontal gradient
/// has finished the first `row` rows: border cells of finished rows
/// hold their final value, everything else is still zero.
spec fn dx_border_partial(arr: Seq<u8>, cols: int, row: int, i: int) -> i16 {
    let nc = cols + 2;
    if i / nc < row && dx_border_col(cols, i % nc) {
        dx_cell(arr, cols, i / nc, i % nc) as i16
    } else {
        0i16
    }
}

/// Buffer contents while the interior pass of the horizontal gradient
/// stands at row `row`, interior offset `col`: border cells and every
/// interior cell before that point hold their final value, the rest
/// are still zero.
spec fn dx_interior_partial(arr: Seq<u8>, cols: int, row: int, col: int, i: int) -> i16 {
    let nc = cols + 2;
    let r = i / nc;
    let j = i % nc;
    if dx_border_col(cols, j) || r < row || (r == row && j < col + 2) {
        dx_cell(arr, cols, r, j) as i16
    } else {
        0i16
    }
}

/// A flat index below `rows * nc` splits into a row below `rows` and
/// an offset below `nc`.
proof fn lemma_flat_decompose(nc: int, rows: int, i: int)
    requires
        nc > 0,
        0 <= i,
        i < rows * nc || i < nc * rows,
    ensures
        0 <= i % nc < nc,
        0 <= i / nc < rows,
        i == (i / nc) * nc + (i % nc),
        i == nc * (i / nc) + (i % nc),
{
    assert(rows * nc == nc * rows) by (nonlinear_arith);
    lemma_fundamental_div_mod(i, nc);
    lemma_mod_bound(i, nc);
    let q = i / nc;
    let r = i % nc;
    assert(nc * q == q * nc) by (nonlinear_arith);
    assert(0 <= q < rows) by (nonlinear_arith)
        requires
            nc > 0,
            0 <= i < rows * nc,
            i == nc * q + r,
            0 <= r < nc,
    ;
}

/// A row and an offset below `nc` compose into a flat index that
/// splits back into the same pair.
proof fn lemma_flat_compose(nc: int, r: int, j: int)
    requires
        nc > 0,
        0 <= j < nc,
    ensures
        (r * nc + j) / nc == r,
        (r * nc + j) % nc == j,
{
    lemma_fundamental_div_mod_converse(r * nc + j, nc, r, j);
}

/// A freshly allocated buffer of signed 16-bit zeros.
fn zeros_i16(n: usize) -> (v: Vec<i16>)
    ensures
        v@.len() == n,
        forall|i: int| 0 <= i < n ==> v@[i] == 0i16,
{
    let mut v: Vec<i16> = Vec::new();
    while v.len() < n
        invariant
            v@.len() <= n,
            forall|i: int| 0 <= i < v@.len() ==> v@[i] == 0i16,
        decreases n - v@.len(),
    {
        v.push(0i16);
    }
    v
}

/// Convolution of the grid with [-1, 0, 1] applied horizontally,
/// with a padding of width 2 on the left and right of each row. The
/// kernel's zero centre is skipped: border cells come from an
/// explicit per-role table (forward addressing), interior cells from
/// the two-apart difference.
#[verifier::loop_isolation(false)]
pub fn compute_dx(arr: &Vec<u8>, rows: usize, cols: usize) -> (dx: Vec<i16>)
    requires
        arr@.len() == rows * cols,
        cols + 2 <= usize::MAX,
        rows * (cols + 2) <= usize::MAX,
    ensures
        dx@.len() == rows * (cols + 2),
        dx@ == dx_spec(arr@, rows as int, cols as int),
{
    proof {
        assert(rows * cols <= rows * (cols + 2)) by (nonlinear_arith)
            requires
                0 <= rows,
                0 <= cols,
        ;
    }
    let new_cols: usize = cols + 2;
    let mut dx: Vec<i16> = zeros_i16(rows * new_cols);

    if cols == 0 {
        proof {
            assert forall|i: int| 0 <= i < rows * (cols as int + 2) implies dx@[i] == dx_spec(
                arr@,
                rows as int,
                cols as int,
            )[i] by {
                lemma_flat_decompose(cols as int + 2, rows as int, i);
            }
            assert(dx@ =~= dx_spec(arr@, rows as int, cols as int));
        }
        return dx;
    }

    // Padding pass: the first two and last two columns of every
    // output row, with the kernel's zero centre ignored.
    for row in 0..rows
        invariant
            dx@.len() == rows * (cols as int + 2),
            forall|i: int| 0 <= i < rows * (cols as int + 2)
                ==> dx@[i] == dx_border_partial(arr@, cols as int, row as int, i),
    {
        proof {
            assert(row * new_cols + new_cols <= rows * new_cols) by (nonlinear_arith)
                requires
                    0 <= row < rows,
                    0 <= new_cols,
            ;
            assert(row * cols + cols <= rows * cols) by (nonlinear_arith)
                requires
                    0 <= row < rows,
                    0 <= cols,
            ;
        }
        let base: usize = row * new_cols;
        let abase: usize = row * cols;

        dx[base + new_cols - 1] = arr[abase + cols - 1] as i16;
        dx[base] = -(arr[abase] as i16);

        if cols > 1 {
            dx[base + new_cols - 2] = arr[abase + cols - 2] as i16;
            dx[base + 1] = -(arr[abase + 1] as i16);
        }

        proof {
            let colsi = cols as int;
            let nc = colsi + 2;
            let ri = row as int;
            lemma_flat_compose(nc, ri, 0);
            lemma_flat_compose(nc, ri, nc - 1);
            lemma_flat_compose(nc, ri, 1);
            lemma_flat_compose(nc, ri, colsi);
            assert forall|i: int| 0 <= i < rows * nc implies dx@[i] == dx_border_partial(
                arr@,
                colsi,
                ri + 1,
                i,
            ) by {
                lemma_flat_decompose(nc, rows as int, i);
            }
        }
    }

    // Interior pass: each interior output cell is the difference of
    // the samples two columns apart, promoted to 16 bits first.
    if cols > 2 {
        proof {
            assert forall|i: int| 0 <= i < rows * (cols as int + 2) implies dx@[i]
                == dx_interior_partial(arr@, cols as int, 0, 0, i) by {
                lemma_flat_decompose(cols as int + 2, rows as int, i);
            }
        }
        for row in 0..rows
            invariant
                dx@.len() == rows * (cols as int + 2),
                forall|i: int| 0 <= i < rows * (cols as int + 2)
                    ==> dx@[i] == dx_interior_partial(arr@, cols as int, row as int, 0, i),
        {
            proof {
                assert(row * new_cols + new_cols <= rows * new_cols) by (nonlinear_arith)
                    requires
                        0 <= row < rows,
                        0 <= new_cols,
                ;
                assert(row * cols + cols <= rows * cols) by (nonlinear_arith)
                    requires
                        0 <= row < rows,
                        0 <= cols,
                ;
            }
            let base: usize = row * new_cols;
            let abase: usize = row * cols;

            for col in 0..cols - 2
                invariant
                    dx@.len() == rows * (cols as int + 2),
                    forall|i: int| 0 <= i < rows * (cols as int + 2)
                        ==> dx@[i] == dx_interior_partial(
                            arr@,
                            cols as int,
                            row as int,
                            col as int,
                            i,
                        ),
                    base == row * new_cols,
                    abase == row * cols,
                    row * new_cols + new_cols <= rows * new_cols,
                    row * cols + cols <= rows * cols,
            {
                let a: i16 = arr[abase + col] as i16;
                let b: i16 = arr[abase + col + 2] as i16;
                dx[base + 2 + col] = a - b;

                proof {
                    let colsi = cols as int;
                    let nc = colsi + 2;
                    let ri = row as int;
                    let ci = col as int;
                    lemma_flat_compose(nc, ri, 2 + ci);
                    assert forall|i: int| 0 <= i < rows * nc implies dx@[i]
                        == dx_interior_partial(arr@, colsi, ri, ci + 1, i) by {
                        lemma_flat_decompose(nc, rows as int, i);
                    }
                }
            }

            proof {
                let colsi = cols as int;
                let nc = colsi + 2;
                assert forall|i: int| 0 <= i < rows * nc implies dx@[i] == dx_interior_partial(
                    arr@,
                    colsi,
                    row as int + 1,
                    0,
                    i,
                ) by {
                    lemma_flat_decompose(nc, rows as int, i);
                }
            }
        }
    }

    proof {
        let colsi = cols as int;
        let nc = colsi + 2;
        assert forall|i: int| 0 <= i < rows * nc implies dx@[i] == dx_spec(
            arr@,
            rows as int,
            colsi,
        )[i] by {
            lemma_flat_decompose(nc, rows as int, i);
        }
        assert(dx@ =~= dx_spec(arr@, rows as int, colsi));
    }
    dx
}

/// Cells filled by the padding pass of the vertical gradient once the
/// first `col` columns are done. The negated top rows are written
/// forward (columns below `col`), the copied bottom rows are written
/// mirrored (columns at or above `cols - col`).
spec fn dy_border_written(rows: int, cols: int, col: int, r: int, c: int) -> bool {
    if r == 0 || (rows > 1 && r == 1) {
        c < col
    } else if r == rows + 1 || (rows > 1 && r == rows) {
        c >= cols - col
    } else {
        false
    }
}

/// Buffer contents while the padding pass of the vertical gradient
/// has finished the first `col` columns: written border cells hold
/// their final value, everything else is still zero.
spec fn dy_border_partial(arr: Seq<u8>, rows: int, cols: int, col: int, i: int) -> i16 {
    if dy_border_written(rows, cols, col, i / cols, i % cols) {
        dy_cell(arr, rows, cols, i / cols, i % cols) as i16
    } else {
        0i16
    }
}

/// Rows filled by the padding pass of the vertical gradient: the
/// outermost pair always, the second pair only when the grid is at
/// least two rows tall.
spec fn dy_border_row(rows: int, r: int) -> bool {
    r == 0 || r == rows + 1 || (rows > 1 && (r == 1 || r == rows))
}

/// Buffer contents while the interior pass of the vertical gradient
/// stands at grid row `row`, column `col`: border cells and every
/// interior cell before that point hold their final value, the rest
/// are still zero.
spec fn dy_interior_partial(arr: Seq<u8>, rows: int, cols: int, row: int, col: int, i: int) -> i16 {
    let r = i / cols;
    let c = i % cols;
    if dy_border_row(rows, r) || r < row + 2 || (r == row + 2 && c < col) {
        dy_cell(arr, rows, cols, r, c) as i16
    } else {
        0i16
    }
}

/// Convolution of the grid with [-1, 0, 1] applied vertically, with a
/// padding of width 2 above and below each column. The kernel's zero
/// centre is skipped: border cells come from an explicit per-role
/// table (mirrored addressing for the copied bottom rows), interior
/// cells from the two-apart difference.
#[verifier::loop_isolation(false)]
#[verifier::rlimit(60)]
pub fn compute_dy(arr: &Vec<u8>, rows: usize, cols: usize) -> (dy: Vec<i16>)
    requires
        arr@.len() == rows * cols,
        rows + 2 <= usize::MAX,
        cols * (rows + 2) <= usize::MAX,
    ensures
        dy@.len() == cols * (rows + 2),
        dy@ == dy_spec(arr@, rows as int, cols as int),
{
    proof {
        assert(rows * cols <= cols * (rows + 2)) by (nonlinear_arith)
            requires
                0 <= rows,
                0 <= cols,
        ;
    }
    let new_rows: usize = rows + 2;
    let mut dy: Vec<i16> = zeros_i16(cols * new_rows);

    if rows == 0 || cols == 0 {
        proof {
            if cols > 0 {
                assert forall|i: int| 0 <= i < cols * (rows as int + 2) implies dy@[i] == dy_spec(
                    arr@,
                    rows as int,
                    cols as int,
                )[i] by {
                    lemma_flat_decompose(cols as int, rows as int + 2, i);
                }
            }
            assert(dy@ =~= dy_spec(arr@, rows as int, cols as int));
        }
        return dy;
    }

    // Padding pass: the first two and last two rows of the output,
    // with the kernel's zero centre ignored. The copied bottom rows
    // are addressed mirrored, from the end of the buffer backwards.
    for col in 0..cols
        invariant
            dy@.len() == cols * (rows as int + 2),
            forall|i: int| 0 <= i < cols * (rows as int + 2)
                ==> dy@[i] == dy_border_partial(arr@, rows as int, cols as int, col as int, i),
    {
        proof {
            assert(cols * (rows + 2) == (rows + 1) * cols + cols) by (nonlinear_arith);
            assert(cols * (rows + 1) == rows * cols + cols) by (nonlinear_arith);
            assert(cols * rows == rows * cols) by (nonlinear_arith);
            assert((rows - 1) * cols + cols == rows * cols) by (nonlinear_arith);
            assert((rows - 2) * cols + cols == (rows - 1) * cols) by (nonlinear_arith);
            assert(cols * (rows - 1) + cols == cols * rows) by (nonlinear_arith);
            assert(0 * (cols as int) == 0) by (nonlinear_arith);
            assert(1 * (cols as int) == cols as int) by (nonlinear_arith);
            assert(cols <= cols * rows) by (nonlinear_arith)
                requires
                    1 <= rows,
                    0 <= cols,
            ;
            if rows > 1 {
                assert(cols + cols <= cols * rows) by (nonlinear_arith)
                    requires
                        2 <= rows,
                        0 <= cols,
                ;
            }
        }

        dy[cols * new_rows - col - 1] = arr[cols * rows - col - 1] as i16;
        dy[col] = -(arr[col] as i16);

        if rows > 1 {
            dy[cols * (new_rows - 1) - col - 1] = arr[cols * (rows - 1) - col - 1] as i16;
            dy[cols + col] = -(arr[cols + col] as i16);
        }

        proof {
            let rowsi = rows as int;
            let colsi = cols as int;
            let ci = col as int;
            lemma_flat_compose(colsi, rowsi + 1, colsi - ci - 1);
            lemma_flat_compose(colsi, 0, ci);
            lemma_flat_compose(colsi, rowsi, colsi - ci - 1);
            lemma_flat_compose(colsi, 1, ci);
            assert forall|i: int| 0 <= i < colsi * (rowsi + 2) implies dy@[i] == dy_border_partial(
                arr@,
                rowsi,
                colsi,
                ci + 1,
                i,
            ) by {
                lemma_flat_decompose(colsi, rowsi + 2, i);
            }
        }
    }

    // Interior pass: each interior output cell is the difference of
    // the samples two rows apart, promoted to 16 bits first.
    if rows > 2 {
        proof {
            assert forall|i: int| 0 <= i < cols * (rows as int + 2) implies dy@[i]
                == dy_interior_partial(arr@, rows as int, cols as int, 0, 0, i) by {
                lemma_flat_decompose(cols as int, rows as int + 2, i);
            }
        }
        for row in 0..rows - 2
            invariant
                dy@.len() == cols * (rows as int + 2),
                forall|i: int| 0 <= i < cols * (rows as int + 2)
                    ==> dy@[i] == dy_interior_partial(
                        arr@,
                        rows as int,
                        cols as int,
                        row as int,
                        0,
                        i,
                    ),
        {
            proof {
                assert((row + 2) * cols + cols <= cols * (rows + 2)) by (nonlinear_arith)
                    requires
                        0 <= row,
                        row + 2 < rows,
                        0 <= cols,
                ;
                assert((row + 2) * cols + cols <= rows * cols) by (nonlinear_arith)
                    requires
                        0 <= row,
                        row + 2 < rows,
                        0 <= cols,
                ;
                assert(row * cols + cols <= rows * cols) by (nonlinear_arith)
                    requires
                        0 <= row,
                        row < rows,
                        0 <= cols,
                ;
            }
            for col in 0..cols
                invariant
                    dy@.len() == cols * (rows as int + 2),
                    forall|i: int| 0 <= i < cols * (rows as int + 2)
                        ==> dy@[i] == dy_interior_partial(
                            arr@,
                            rows as int,
                            cols as int,
                            row as int,
                            col as int,
                            i,
                        ),
                    row < rows - 2,
                    (row + 2) * cols + cols <= cols * (rows as int + 2),
                    (row + 2) * cols + cols <= rows * cols,
                    row * cols + cols <= rows * cols,
            {
                let a: i16 = arr[row * cols + col] as i16;
                let b: i16 = arr[(row + 2) * cols + col] as i16;
                dy[(row + 2) * cols + col] = a - b;

                proof {
                    let rowsi = rows as int;
                    let colsi = cols as int;
                    let ri = row as int;
                    let ci = col as int;
                    lemma_flat_compose(colsi, ri + 2, ci);
                    assert forall|i: int| 0 <= i < colsi * (rowsi + 2) implies dy@[i]
                        == dy_interior_partial(arr@, rowsi, colsi, ri, ci + 1, i) by {
                        lemma_flat_decompose(colsi, rowsi + 2, i);
                    }
                }
            }

            proof {
                let rowsi = rows as int;
                let colsi = cols as int;
                assert forall|i: int| 0 <= i < colsi * (rowsi + 2) implies dy@[i]
                    == dy_interior_partial(arr@, rowsi, colsi, row as int + 1, 0, i) by {
                    lemma_flat_decompose(colsi, rowsi + 2, i);
                }
            }
        }
    }

    proof {
        let rowsi = rows as int;
        let colsi = cols as int;
        assert forall|i: int| 0 <= i < colsi * (rowsi + 2) implies dy@[i] == dy_spec(
            arr@,
            rowsi,
            colsi,
        )[i] by {
            lemma_flat_decompose(colsi, rowsi + 2, i);
        }
        assert(dy@ =~= dy_spec(arr@, rowsi, colsi));
    }
    dy
}

/// Interior cells of the horizontal gradient: for a grid wider than
/// two columns, the output cell at row `row`, output column `2 + c`
/// holds the grid sample at column `c` minus the one at column
/// `c + 2`, computed after promotion to signed 16 bits.
pub proof fn lemma_dx_interior(arr: Seq<u8>, rows: int, cols: int, row: int, c: int)
    requires
        arr.len() == rows * cols,
        cols > 2,
        0 <= row < rows,
        0 <= c < cols - 2,
    ensures
        dx_spec(arr, rows, cols)[row * (cols + 2) + 2 + c] == arr[row * cols + c] - arr[row * cols
            + c + 2],
{
    let nc = cols + 2;
    lemma_flat_compose(nc, row, 2 + c);
    assert(row * nc + nc <= rows * nc) by (nonlinear_arith)
        requires
            0 <= row < rows,
            0 <= nc,
    ;
}

/// Interior cells of the vertical gradient: for a grid taller than
/// two rows, the output cell at output row `r + 2`, column `c` holds
/// the grid sample at row `r` minus the one at row `r + 2`, computed
/// after promotion to signed 16 bits.
pub proof fn lemma_dy_interior(arr: Seq<u8>, rows: int, cols: int, r: int, c: int)
    requires
        arr.len() == rows * cols,
        rows > 2,
        0 <= r < rows - 2,
        0 <= c < cols,
    ensures
        dy_spec(arr, rows, cols)[(r + 2) * cols + c] == arr[r * cols + c] - arr[(r + 2) * cols
            + c],
{
    lemma_flat_compose(cols, r + 2, c);
    assert((r + 2) * cols + cols <= cols * (rows + 2)) by (nonlinear_arith)
        requires
            0 <= r,
            r + 2 < rows,
            0 < cols,
    ;
}

/// Computing the horizontal gradient of the same grid twice yields
/// identical buffers: the result is a function of the grid alone.
pub proof fn lemma_dx_deterministic(
    arr: Seq<u8>,
    rows: int,
    cols: int,
    d1: Seq<i16>,
    d2: Seq<i16>,
)
    requires
        d1 == dx_spec(arr, rows, cols),
        d2 == dx_spec(arr, rows, cols),
    ensures
        d1 == d2,
{
}

/// Computing the vertical gradient of the same grid twice yields
/// identical buffers: the result is a function of the grid alone.
pub proof fn lemma_dy_deterministic(
    arr: Seq<u8>,
    rows: int,
    cols: int,
    d1: Seq<i16>,
    d2: Seq<i16>,
)
    requires
        d1 == dy_spec(arr, rows, cols),
        d2 == dy_spec(arr, rows, cols),
    ensures
        d1 == d2,
{
}

} // verus!
