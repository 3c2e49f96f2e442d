//! Random grid generation: fills a row-major buffer with uniform
//! unsigned 8-bit samples drawn from the process-wide generator.

use vstd::prelude::*;

verus! {

/// Relies on rand::random: draws one unsigned 8-bit sample from the
/// thread-local generator. Any value may come back, so nothing is
/// promised of the result.
#[verifier::external_body]
fn random_u8() -> u8 {
    rand::random()
}

/// Builds a `rows x cols` grid, flattened row-major, each cell an
/// independently drawn unsigned 8-bit sample. Only the extent is
/// promised: the cell values are random.
#[verifier::loop_isolation(false)]
pub fn construct_randomized_matrix(rows: usize, cols: usize) -> (arr: Vec<u8>)
    requires
        rows * cols <= usize::MAX,
    ensures
        arr@.len() == rows * cols,
{
    let n: usize = rows * cols;
    let mut arr: Vec<u8> = Vec::new();
    while arr.len() < n
        invariant
            arr@.len() <= n,
        decreases n - arr@.len(),
    {
        arr.push(0u8);
    }

    for row in 0..rows
        invariant
            arr@.len() == rows * cols,
    {
        for col in 0..cols
            invariant
                arr@.len() == rows * cols,
                row < rows,
        {
            proof {
                assert(row * cols + col < rows * cols) by (nonlinear_arith)
                    requires
                        0 <= row < rows,
                        0 <= col < cols,
                ;
            }
            let idx: usize = row * cols + col;
            arr[idx] = random_u8();
        }
    }

    arr
}

} // verus!
