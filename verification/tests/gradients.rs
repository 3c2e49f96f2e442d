use gridconv::compute_dx;
use gridconv::compute_dy;
use gridconv::construct_randomized_matrix;
use gridconv::get_max;
use gridconv::get_min;

#[test]
fn dx_one_row_three_cols() {
    let grid: Vec<u8> = vec![10, 20, 30];
    let dx = compute_dx(&grid, 1, 3);
    assert_eq!(dx, vec![-10, -20, -20, 20, 30]);
}

#[test]
fn dy_three_rows_one_col() {
    let grid: Vec<u8> = vec![5, 15, 25];
    let dy = compute_dy(&grid, 3, 1);
    assert_eq!(dy, vec![-5, -15, -20, 15, 25]);
}

#[test]
fn dx_single_column_skips_middle_cell() {
    let grid: Vec<u8> = vec![7, 9];
    let dx = compute_dx(&grid, 2, 1);
    assert_eq!(dx, vec![-7, 0, 7, -9, 0, 9]);
}

#[test]
fn dx_two_columns_all_border() {
    let grid: Vec<u8> = vec![3, 4];
    let dx = compute_dx(&grid, 1, 2);
    assert_eq!(dx, vec![-3, -4, 3, 4]);
}

#[test]
fn dy_single_row_skips_middle_row() {
    let grid: Vec<u8> = vec![3, 4];
    let dy = compute_dy(&grid, 1, 2);
    assert_eq!(dy, vec![-3, -4, 0, 0, 3, 4]);
}

#[test]
fn dy_two_rows_all_border() {
    let grid: Vec<u8> = vec![3, 4];
    let dy = compute_dy(&grid, 2, 1);
    assert_eq!(dy, vec![-3, -4, 3, 4]);
}

#[test]
fn dx_three_by_three() {
    let grid: Vec<u8> = vec![1, 2, 3, 4, 5, 6, 7, 8, 9];
    let dx = compute_dx(&grid, 3, 3);
    assert_eq!(dx, vec![-1, -2, -2, 2, 3, -4, -5, -2, 5, 6, -7, -8, -2, 8, 9]);
}

#[test]
fn dy_three_by_three() {
    let grid: Vec<u8> = vec![1, 2, 3, 4, 5, 6, 7, 8, 9];
    let dy = compute_dy(&grid, 3, 3);
    assert_eq!(dy, vec![-1, -2, -3, -4, -5, -6, -6, -6, -6, 4, 5, 6, 7, 8, 9]);
}

#[test]
fn output_lengths_match_padded_extents() {
    let grid: Vec<u8> = vec![0; 4 * 6];
    assert_eq!(compute_dx(&grid, 4, 6).len(), 4 * (6 + 2));
    assert_eq!(compute_dy(&grid, 4, 6).len(), 6 * (4 + 2));

    let empty: Vec<u8> = Vec::new();
    assert_eq!(compute_dx(&empty, 0, 9).len(), 0);
    assert_eq!(compute_dy(&empty, 9, 0).len(), 0);
}

#[test]
fn degenerate_dimensions_give_padding_only_buffers() {
    let empty: Vec<u8> = Vec::new();
    let dx = compute_dx(&empty, 5, 0);
    assert_eq!(dx, vec![0; 10]);
    let dy = compute_dy(&empty, 0, 4);
    assert_eq!(dy, vec![0; 8]);
}

#[test]
fn min_max_of_empty_buffer_are_zero() {
    let empty: Vec<i16> = Vec::new();
    assert_eq!(get_min(&empty), 0);
    assert_eq!(get_max(&empty), 0);
}

#[test]
fn min_max_of_single_element() {
    let one: Vec<i16> = vec![4];
    assert_eq!(get_min(&one), 4);
    assert_eq!(get_max(&one), 4);
}

#[test]
fn min_max_exact_values() {
    let buf: Vec<i16> = vec![5, -3, 7, -3, 0];
    assert_eq!(get_min(&buf), -3);
    assert_eq!(get_max(&buf), 7);
    assert!(get_min(&buf) <= get_max(&buf));
}

#[test]
fn min_max_of_gradient_buffer() {
    let grid: Vec<u8> = vec![10, 20, 30];
    let dx = compute_dx(&grid, 1, 3);
    assert_eq!(get_min(&dx), -20);
    assert_eq!(get_max(&dx), 30);
}

#[test]
fn repeated_computation_is_identical() {
    let grid: Vec<u8> = vec![9, 0, 255, 17, 128, 3];
    assert_eq!(compute_dx(&grid, 2, 3), compute_dx(&grid, 2, 3));
    assert_eq!(compute_dy(&grid, 2, 3), compute_dy(&grid, 2, 3));
}

#[test]
fn extreme_samples_stay_in_sixteen_bits() {
    let grid: Vec<u8> = vec![255, 0, 255, 0, 255, 0];
    let dx = compute_dx(&grid, 1, 6);
    assert_eq!(get_min(&dx), -255);
    assert_eq!(get_max(&dx), 255);
}

#[test]
fn randomized_matrix_has_requested_extent() {
    let grid = construct_randomized_matrix(7, 5);
    assert_eq!(grid.len(), 35);
    let none = construct_randomized_matrix(0, 12);
    assert_eq!(none.len(), 0);
}
