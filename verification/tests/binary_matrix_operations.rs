use democratic_pq_cle::binary_matrix_operations::{
    concat_horizontally_mat, concat_vertically_mat, make_circulant_matrix, make_identity_matrix,
    make_zero_matrix, matrix_elements_sum, matrix_is_identity, matrix_is_zero, shifted_row,
    try_inverse_matrix, BitMatrix, MatrixError,
};

fn bits(values: &[u8]) -> Vec<bool> {
    values.iter().map(|x| *x != 0).collect()
}

#[test]
fn test_try_inverse_matrix() {
    let matrix = BitMatrix::from_row_slice(
        3,
        3,
        &[true, false, false, false, true, false, false, false, true],
    )
    .unwrap();
    let inverse = try_inverse_matrix(&matrix).unwrap();
    assert_eq!(matrix, inverse);

    let matrix = BitMatrix::from_row_slice(2, 2, &[false, true, true, false]).unwrap();
    let inverse = try_inverse_matrix(&matrix).unwrap();
    assert_eq!(matrix, inverse);

    let matrix = BitMatrix::from_row_slice(
        4,
        4,
        &[
            true, true, false, true, true, true, true, false, false, true, true, true, true,
            false, true, true,
        ],
    )
    .unwrap();
    let inverse = try_inverse_matrix(&matrix).unwrap();
    assert_eq!(matrix, inverse);
    println!("{:?}", inverse);
}

#[test]
fn test_make_circulant_matrix() {
    let row: Vec<bool> = [
        true, false, false, false, false, false, false, true, false, false,
    ]
    .to_vec();
    let matrix = make_circulant_matrix(&row, 7, 7, 1);
    let expected_generated_matrix = BitMatrix::from_row_slice(
        7,
        7,
        &[
            true, false, false, false, false, false, false, false, true, false, false, false,
            false, false, false, false, true, false, false, false, false, false, false, false,
            true, false, false, false, false, false, false, false, true, false, false, false,
            false, false, false, false, true, false, false, false, false, false, false, false,
            true,
        ],
    )
    .unwrap();
    assert_eq!(matrix, expected_generated_matrix);
}

#[test]
fn inverse_of_a_general_matrix_multiplies_to_identity() {
    // 3x3 with a row exchange needed for the first pivot
    let m = BitMatrix::from_row_slice(3, 3, &bits(&[0, 1, 1, 1, 1, 0, 0, 0, 1])).unwrap();
    let inv = try_inverse_matrix(&m).unwrap();
    let expected = BitMatrix::from_row_slice(3, 3, &bits(&[1, 1, 1, 1, 0, 1, 0, 0, 1])).unwrap();
    assert_eq!(inv, expected);
    assert!(matrix_is_identity(&m.multiply(&inv).unwrap()));
    assert!(matrix_is_identity(&inv.multiply(&m).unwrap()));
    let back = try_inverse_matrix(&inv).unwrap();
    assert_eq!(back, m);
}

#[test]
fn singular_and_non_square_matrices_have_no_inverse() {
    let singular = BitMatrix::from_row_slice(2, 2, &bits(&[1, 1, 1, 1])).unwrap();
    assert!(try_inverse_matrix(&singular).is_none());
    let zero = BitMatrix::from_element(3, 3, false);
    assert!(try_inverse_matrix(&zero).is_none());
    let wide = BitMatrix::from_element(2, 3, true);
    assert!(try_inverse_matrix(&wide).is_none());
    let empty = BitMatrix::from_element(0, 0, false);
    assert_eq!(try_inverse_matrix(&empty).unwrap(), empty);
}

#[test]
fn product_sum_and_transpose_on_small_matrices() {
    let a = BitMatrix::from_row_slice(2, 3, &bits(&[1, 0, 1, 1, 1, 0])).unwrap();
    let b = BitMatrix::from_row_slice(3, 2, &bits(&[1, 1, 0, 1, 1, 0])).unwrap();
    // rows of a times columns of b, modulo 2
    let ab = BitMatrix::from_row_slice(2, 2, &bits(&[0, 1, 1, 0])).unwrap();
    assert_eq!(a.multiply(&b).unwrap(), ab);
    assert_eq!(a.multiply(&a), Err(MatrixError::DimensionMismatch));
    let at = BitMatrix::from_row_slice(3, 2, &bits(&[1, 1, 0, 1, 1, 0])).unwrap();
    assert_eq!(a.transposed(), at);
    let sum = BitMatrix::from_row_slice(3, 2, &bits(&[0, 0, 0, 0, 0, 0])).unwrap();
    assert_eq!(at.plus(&b).unwrap(), sum);
    assert_eq!(a.plus(&b), Err(MatrixError::DimensionMismatch));
    assert!(a.equals(&a.clone()));
    assert!(!a.equals(&b));
}

#[test]
fn builders_and_predicates() {
    let id = make_identity_matrix(4);
    assert!(matrix_is_identity(&id));
    assert!(!matrix_is_zero(&id));
    assert_eq!(matrix_elements_sum(&id), 4);
    let zero = make_zero_matrix(2, 5);
    assert_eq!(zero, BitMatrix::from_element(2, 5, false));
    assert!(matrix_is_zero(&zero));
    assert!(!matrix_is_identity(&zero));
    assert_eq!(matrix_elements_sum(&zero), 0);
    assert_eq!(zero.nrows(), 2);
    assert_eq!(zero.ncols(), 5);
    assert!(BitMatrix::from_row_slice(2, 2, &[true, false, true]).is_none());
    let mut m = BitMatrix::from_element(2, 2, false);
    m.set(0, 1, true);
    assert!(m.get(0, 1));
    assert!(!m.get(1, 0));
    assert_eq!(m.row(0), vec![false, true]);
    assert_eq!(m.column(1), vec![true, false]);
    let picked = expected_columns(&m);
    assert_eq!(m.select_columns(&vec![1, 1, 0]), picked);
    assert_eq!(
        m.submatrix(1, 2),
        BitMatrix::from_row_slice(1, 2, &[false, true]).unwrap()
    );
    assert_eq!(BitMatrix::from_row_vector(&vec![true, false]).nrows(), 1);
}

fn expected_columns(m: &BitMatrix) -> BitMatrix {
    let rows: Vec<bool> = (0..m.nrows())
        .flat_map(|r| vec![m.get(r, 1), m.get(r, 1), m.get(r, 0)])
        .collect();
    BitMatrix::from_row_slice(m.nrows(), 3, &rows).unwrap()
}

#[test]
fn concatenation_checks_dimensions() {
    let mut left = make_identity_matrix(2);
    let right = BitMatrix::from_row_slice(2, 1, &[true, false]).unwrap();
    assert_eq!(concat_horizontally_mat(&mut left, &right), Ok(()));
    let expected = BitMatrix::from_row_slice(2, 3, &bits(&[1, 0, 1, 0, 1, 0])).unwrap();
    assert_eq!(left, expected);
    let tall = BitMatrix::from_element(3, 1, false);
    assert_eq!(
        concat_horizontally_mat(&mut left, &tall),
        Err(MatrixError::DimensionMismatch)
    );
    assert_eq!(left, expected);

    let mut top = make_identity_matrix(2);
    let bottom = BitMatrix::from_row_slice(1, 2, &[true, true]).unwrap();
    assert_eq!(concat_vertically_mat(&mut top, &bottom), Ok(()));
    let expected = BitMatrix::from_row_slice(3, 2, &bits(&[1, 0, 0, 1, 1, 1])).unwrap();
    assert_eq!(top, expected);
    assert_eq!(
        concat_vertically_mat(&mut top, &tall),
        Err(MatrixError::DimensionMismatch)
    );
    assert_eq!(top, expected);
}

#[test]
fn shifted_row_moves_entries_to_the_right() {
    let row = bits(&[1, 1, 0, 0, 0]);
    assert_eq!(shifted_row(&row, 0), row);
    assert_eq!(shifted_row(&row, 1), bits(&[0, 1, 1, 0, 0]));
    assert_eq!(shifted_row(&row, 4), bits(&[1, 0, 0, 0, 1]));
    assert_eq!(shifted_row(&row, 6), bits(&[0, 1, 1, 0, 0]));
    assert_eq!(shifted_row(&[], 3), Vec::<bool>::new());
}

#[test]
fn circulant_with_shift_two_is_rectangular_quasi_cyclic() {
    let row = bits(&[1, 0, 0, 0]);
    let m = make_circulant_matrix(&row, 3, 4, 2);
    let expected =
        BitMatrix::from_row_slice(3, 4, &bits(&[1, 0, 0, 0, 0, 0, 1, 0, 1, 0, 0, 0])).unwrap();
    assert_eq!(m, expected);
}

#[test]
fn matrix_product_agrees_with_integer_product_modulo_two() {
    let n = 6;
    let a_bits: Vec<bool> = (0..n * n).map(|i| (i * 7 + i / 5) % 3 == 0).collect();
    let b_bits: Vec<bool> = (0..n * n).map(|i| (i * 5 + i / 4) % 4 == 1).collect();
    let a = BitMatrix::from_row_slice(n, n, &a_bits).unwrap();
    let b = BitMatrix::from_row_slice(n, n, &b_bits).unwrap();
    let na = nalgebra::DMatrix::<u64>::from_fn(n, n, |r, c| a_bits[r * n + c] as u64);
    let nb = nalgebra::DMatrix::<u64>::from_fn(n, n, |r, c| b_bits[r * n + c] as u64);
    let nc = na * nb;
    let c = a.multiply(&b).unwrap();
    for r in 0..n {
        for col in 0..n {
            assert_eq!(c.get(r, col), nc[(r, col)] % 2 == 1);
        }
    }
}

#[test]
fn circulant_of_a_short_row_is_extended_with_zeros() {
    let m = make_circulant_matrix(&bits(&[1, 1]), 3, 4, 1);
    let expected =
        BitMatrix::from_row_slice(3, 4, &bits(&[1, 1, 0, 0, 0, 1, 1, 0, 0, 0, 1, 1])).unwrap();
    assert_eq!(m, expected);
    assert_eq!(make_circulant_matrix(&[], 2, 3, 1), make_zero_matrix(2, 3));
    assert_eq!(make_circulant_matrix(&bits(&[1]), 2, 0, 5), make_zero_matrix(2, 0));
    assert_eq!(
        make_circulant_matrix(&bits(&[1, 0, 0, 1, 1]), 3, 3, 1),
        make_identity_matrix(3)
    );
}
