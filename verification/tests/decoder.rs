use democratic_pq_cle::binary_matrix_operations::{
    concat_horizontally_mat, make_identity_matrix, BitMatrix, MatrixError,
};
use democratic_pq_cle::decoder::{bit_flip_search, compute_syndrome, is_all_false, DELTA, LIMIT};
use democratic_pq_cle::error::CodeError;
use democratic_pq_cle::math::CombinationError;
use democratic_pq_cle::mc_eliece::{decrypt, encrypt, get_error_vector};
use democratic_pq_cle::qc_mdpc::{decode_word, range_weight, QcMdpc};
use rand_chacha::ChaCha20Rng;
use rand_core::SeedableRng;

fn bits(values: &[u8]) -> Vec<bool> {
    values.iter().map(|x| *x != 0).collect()
}

#[test]
fn decoder_constants() {
    assert_eq!(LIMIT, 10);
    assert_eq!(DELTA, 5);
}

#[test]
fn syndrome_is_the_product_with_the_parity_checks() {
    let h = BitMatrix::from_row_slice(2, 3, &bits(&[1, 1, 0, 0, 1, 1])).unwrap();
    assert_eq!(compute_syndrome(&h, &bits(&[0, 0, 0])), bits(&[0, 0]));
    assert_eq!(compute_syndrome(&h, &bits(&[1, 0, 0])), bits(&[1, 0]));
    assert_eq!(compute_syndrome(&h, &bits(&[0, 1, 0])), bits(&[1, 1]));
    assert_eq!(compute_syndrome(&h, &bits(&[1, 1, 1])), bits(&[0, 0]));
    assert!(is_all_false(&bits(&[0, 0])));
    assert!(!is_all_false(&bits(&[0, 1])));
    assert!(is_all_false(&vec![]));
}

#[test]
fn a_single_round_flips_the_positions_above_the_threshold() {
    // with the identity as parity checks the syndrome is the error pattern
    let h = make_identity_matrix(2);
    assert_eq!(bit_flip_search(&h, &bits(&[1, 0])), Some(bits(&[1, 0])));
    assert_eq!(bit_flip_search(&h, &bits(&[0, 0])), Some(bits(&[0, 0])));
    assert_eq!(bit_flip_search(&h, &bits(&[1, 1])), Some(bits(&[1, 1])));

    // column 0 is in seven checks, column 1 in one: with all seven checks
    // unsatisfied the threshold is 7 - 5 = 2, and only column 0 is flipped
    let h = BitMatrix::from_row_slice(
        7,
        2,
        &bits(&[1, 1, 1, 0, 1, 0, 1, 0, 1, 0, 1, 0, 1, 0]),
    )
    .unwrap();
    assert_eq!(bit_flip_search(&h, &vec![true; 7]), Some(bits(&[1, 0])));
    // six unsatisfied checks on column 0 and one on column 1: threshold 1,
    // column 0 is flipped, and the check that only column 0 left open remains
    let mut six = vec![true; 7];
    six[6] = false;
    assert_eq!(bit_flip_search(&h, &six), None);
}

#[test]
fn a_search_that_does_not_converge_gives_up() {
    let h = BitMatrix::from_row_slice(2, 3, &bits(&[1, 1, 0, 0, 1, 1])).unwrap();
    assert_eq!(bit_flip_search(&h, &bits(&[1, 0])), None);
    assert_eq!(decode_word(&h, &bits(&[1, 0, 0])), None);
    // a code word is returned as it is
    assert_eq!(decode_word(&h, &bits(&[1, 1, 1])), Some(bits(&[1, 1, 1])));
    // without positions there is nothing to flip
    let empty = BitMatrix::from_element(2, 0, false);
    assert_eq!(bit_flip_search(&empty, &bits(&[0, 0])), Some(vec![]));
    assert_eq!(bit_flip_search(&empty, &bits(&[0, 1])), None);
}

#[test]
fn too_many_errors_end_in_a_decoding_failure() {
    let mut rng = ChaCha20Rng::seed_from_u64(17);
    let code = QcMdpc::init(2, 200, 30, 10, &mut rng).unwrap();
    let public_key = code.get_public_key();
    let private_key = code.get_private_key();
    let mut word = QcMdpc::encode_data(&public_key, b"noise").unwrap();
    let noise = get_error_vector(400, 150, &mut rng).unwrap();
    assert_eq!(range_weight(&noise.row(0), 0, 400), 150);
    word = word.plus(&noise).unwrap();
    assert_eq!(
        QcMdpc::decode_data(&private_key, &word),
        Err(CodeError::DecodingFailure)
    );
    assert_eq!(
        decrypt(&private_key, &word),
        Err(CodeError::DecodingFailure)
    );
}

#[test]
fn an_error_weight_beyond_the_word_length_cannot_be_drawn() {
    let mut rng = ChaCha20Rng::seed_from_u64(18);
    let code = QcMdpc::init(2, 20, 5, 100, &mut rng).unwrap();
    let public_key = code.get_public_key();
    assert_eq!(
        encrypt(&public_key, b"ab", &mut rng).err(),
        Some(CodeError::NoiseUnavailable)
    );
    assert_eq!(
        CodeError::NoiseUnavailable.message(),
        "No error vector could be drawn"
    );
    let exact = QcMdpc::init(2, 20, 5, 0, &mut rng).unwrap();
    let clean = encrypt(&exact.get_public_key(), b"ab", &mut rng).unwrap();
    assert_eq!(
        clean,
        QcMdpc::encode_data(&exact.get_public_key(), b"ab").unwrap()
    );
    assert_eq!(
        decrypt(&exact.get_private_key(), &clean),
        Ok(vec![b'a', b'b', 0])
    );
}

#[test]
fn a_matrix_cannot_have_more_columns_than_a_machine_word_counts() {
    let mut wide = BitMatrix::from_element(0, usize::MAX, false);
    let one = BitMatrix::from_element(0, 1, false);
    assert_eq!(
        concat_horizontally_mat(&mut wide, &one),
        Err(MatrixError::SizeOverflow)
    );
    assert_eq!(wide.ncols(), usize::MAX);
    assert_eq!(
        MatrixError::SizeOverflow.message(),
        "The matrix would be too large"
    );
    assert_eq!(
        MatrixError::DimensionMismatch.message(),
        "The dimensions must match"
    );
    assert_eq!(
        CombinationError::SubsetTooLarge.message(),
        "k must be less than or equal to n"
    );
    assert_eq!(
        CombinationError::IndexOutOfRange.message(),
        "index must be less than the number of combinations"
    );
}
