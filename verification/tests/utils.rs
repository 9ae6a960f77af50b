use democratic_pq_cle::binary_matrix_operations::{
    make_circulant_matrix, matrix_is_identity, try_inverse_matrix,
};
use democratic_pq_cle::bits::{message_bit, pack_bits, vector_weight};
use democratic_pq_cle::certificateless_qc_mdpc::utils::{
    check_vector_leads_to_invertible_circulant_matrix, compute_polynomial_modulus,
    fold_coefficients, generate_hash_id_vector_correct_weight, generate_random_weight_vector,
    generate_random_weight_vector_to_invertible_matrix, has_odd_upper_half,
    hash_vector_from_digest, helper_weight, is_zero_vector, mark_drawn,
    multiply_2_matrix_first_line_vector, try_invert_matrix_vector, turn_around,
};
use democratic_pq_cle::error::GenerationError;
use democratic_pq_cle::hashing::{decimal_string, hash_identity};
use rand_chacha::ChaCha20Rng;
use rand_core::SeedableRng;

fn bits(values: &[u8]) -> Vec<bool> {
    values.iter().map(|x| *x != 0).collect()
}

#[test]
fn polynomial_inverse_of_small_vectors() {
    // 1 + x modulo x^3 + 1 has no inverse: x + 1 divides x^3 + 1
    assert_eq!(try_invert_matrix_vector(&bits(&[1, 1, 0])), None);
    // x modulo x^3 + 1: the inverse is x^2
    assert_eq!(
        try_invert_matrix_vector(&bits(&[0, 1, 0])),
        Some(bits(&[0, 0, 1]))
    );
    // 1 + x + x^2 modulo x^3 + 1 is a divisor of x^3 + 1
    assert_eq!(try_invert_matrix_vector(&bits(&[1, 1, 1])), None);
    // 1 + x + x^3 modulo x^4 + 1 is its own inverse
    assert_eq!(
        try_invert_matrix_vector(&bits(&[1, 1, 0, 1])),
        Some(bits(&[1, 1, 0, 1]))
    );
    assert_eq!(try_invert_matrix_vector(&bits(&[0, 0, 0])), None);
    assert_eq!(try_invert_matrix_vector(&[]), Some(vec![]));
    assert_eq!(try_invert_matrix_vector(&bits(&[1])), Some(bits(&[1])));
}

#[test]
fn polynomial_product_is_cyclic_convolution() {
    // (1 + x)(x + x^2) = x + x^3 = 1 + x modulo x^3 + 1
    assert_eq!(
        multiply_2_matrix_first_line_vector(&bits(&[1, 1, 0]), &bits(&[0, 1, 1])),
        bits(&[1, 1, 0])
    );
    // x^4 * x^3 = x^7 = x^2 modulo x^5 + 1
    assert_eq!(
        multiply_2_matrix_first_line_vector(&bits(&[0, 0, 0, 0, 1]), &bits(&[0, 0, 0, 1, 0])),
        bits(&[0, 0, 1, 0, 0])
    );
    assert_eq!(
        multiply_2_matrix_first_line_vector(&bits(&[0, 0, 0]), &bits(&[1, 1, 1])),
        bits(&[0, 0, 0])
    );
    assert_eq!(
        multiply_2_matrix_first_line_vector(&[], &[]),
        Vec::<bool>::new()
    );
}

#[test]
fn polynomial_and_matrix_paths_agree() {
    let a = bits(&[1, 0, 1, 1, 0, 0, 0, 1, 0, 1, 0]);
    let b = bits(&[0, 1, 1, 0, 0, 1, 0, 0, 0, 1, 0]);
    let p = a.len();
    let circ_a = make_circulant_matrix(&a, p, p, 1);
    let circ_b = make_circulant_matrix(&b, p, p, 1);
    let product = circ_a.multiply(&circ_b).unwrap();
    assert_eq!(multiply_2_matrix_first_line_vector(&a, &b), product.row(0));
    assert_eq!(
        make_circulant_matrix(&multiply_2_matrix_first_line_vector(&a, &b), p, p, 1),
        product
    );

    let inverse = try_invert_matrix_vector(&a).unwrap();
    let circ_inverse = make_circulant_matrix(&inverse, p, p, 1);
    assert!(matrix_is_identity(&circ_a.multiply(&circ_inverse).unwrap()));
    assert_eq!(try_inverse_matrix(&circ_a).unwrap(), circ_inverse);
    assert!(check_vector_leads_to_invertible_circulant_matrix(&a, p));

    // even weight: x + 1 divides both the vector and the modulus
    assert!(!check_vector_leads_to_invertible_circulant_matrix(&b, p));
    assert!(try_inverse_matrix(&circ_b).is_none());
    assert!(try_invert_matrix_vector(&b).is_none());
}

#[test]
fn invertibility_check_looks_at_the_first_p_entries() {
    let v = bits(&[0, 1, 0, 1, 1]);
    assert!(check_vector_leads_to_invertible_circulant_matrix(&v, 3));
    assert!(!check_vector_leads_to_invertible_circulant_matrix(&v, 4));
    assert!(check_vector_leads_to_invertible_circulant_matrix(&v, 0));
    // a shorter vector is extended with zeros: x + x^3 + x^4 is prime to
    // x^6 + 1, but a multiple of the factor x^3 + x^2 + 1 of x^7 + 1
    assert!(check_vector_leads_to_invertible_circulant_matrix(&v, 6));
    assert!(!check_vector_leads_to_invertible_circulant_matrix(&v, 7));
    assert!(!check_vector_leads_to_invertible_circulant_matrix(&v[0..4], 7));
    assert!(!check_vector_leads_to_invertible_circulant_matrix(&[], 3));
}

#[test]
fn coefficient_lists() {
    assert_eq!(compute_polynomial_modulus(1), bits(&[1, 1]));
    assert_eq!(compute_polynomial_modulus(4), bits(&[1, 0, 0, 0, 1]));
    assert_eq!(turn_around(&bits(&[1, 1, 0])), bits(&[0, 1, 1]));
    // highest degree first: x^4 + x + 1 modulo x^3 + 1 is x + x + 1 = 1
    assert_eq!(
        fold_coefficients(&bits(&[1, 0, 0, 1, 1]), 3),
        bits(&[1, 0, 0])
    );
    assert_eq!(fold_coefficients(&bits(&[1, 1]), 3), bits(&[1, 1, 0]));
    assert_eq!(fold_coefficients(&vec![], 2), bits(&[0, 0]));
    assert!(is_zero_vector(&bits(&[0, 0])));
    assert!(!is_zero_vector(&bits(&[0, 1])));
    assert!(is_zero_vector(&[]));
}

#[test]
fn identity_hash_is_sha3_512_of_the_decimal_digits() {
    assert_eq!(decimal_string(0), b"0".to_vec());
    assert_eq!(decimal_string(7), b"7".to_vec());
    assert_eq!(decimal_string(10), b"10".to_vec());
    assert_eq!(decimal_string(8009), b"8009".to_vec());
    assert_eq!(decimal_string(1234567890), b"1234567890".to_vec());
    let digest = hash_identity(1);
    assert_eq!(digest.len(), 64);
    assert_eq!(&digest[0..4], &[0xca, 0x2c, 0x70, 0xbc]);
    let digest = hash_identity(2);
    assert_eq!(&digest[0..4], &[0x56, 0x4e, 0x19, 0x71]);
    assert_eq!(&hash_identity(10)[0..4], &[0x0a, 0xf1, 0xab, 0xec]);
}

#[test]
fn hash_bound_vector_takes_the_first_set_bits() {
    // 0xca = 1100_1010: the bits from the lowest are 0 1 0 1 0 0 1 1
    assert_eq!(
        generate_hash_id_vector_correct_weight(1, 8, 3),
        Ok(bits(&[0, 1, 0, 1, 0, 0, 1, 0]))
    );
    assert_eq!(
        generate_hash_id_vector_correct_weight(1, 8, 4),
        Ok(bits(&[0, 1, 0, 1, 0, 0, 1, 1]))
    );
    assert_eq!(
        generate_hash_id_vector_correct_weight(1, 8, 5),
        Err(GenerationError::InsufficientHashDensity)
    );
    assert_eq!(
        generate_hash_id_vector_correct_weight(1, 3, 0),
        Ok(bits(&[0, 0, 0]))
    );
    assert_eq!(generate_hash_id_vector_correct_weight(1, 0, 0), Ok(vec![]));
    // 15 of the first 32 bits of the hash of "2" are set, 19 of that of "3"
    assert_eq!(
        generate_hash_id_vector_correct_weight(2, 32, 16),
        Err(GenerationError::InsufficientHashDensity)
    );
    let v = generate_hash_id_vector_correct_weight(2, 32, 15).unwrap();
    assert_eq!(vector_weight(&v), 15);
    let v = generate_hash_id_vector_correct_weight(3, 32, 16).unwrap();
    assert_eq!(v.len(), 32);
    assert_eq!(vector_weight(&v), 16);
    // beyond the 512 bits of the hash there is nothing to take over
    let v = generate_hash_id_vector_correct_weight(1, 600, 256).unwrap();
    assert_eq!(v.len(), 600);
    assert_eq!(vector_weight(&v), 256);
    assert_eq!(
        generate_hash_id_vector_correct_weight(1, 600, 257),
        Err(GenerationError::InsufficientHashDensity)
    );
}

#[test]
fn hash_vector_from_a_given_digest() {
    let digest = vec![0b0000_0101u8, 0b1000_0000];
    assert_eq!(
        hash_vector_from_digest(&digest, 16, 3),
        Ok(bits(&[1, 0, 1, 0, 0, 0, 0, 0, 0, 0, 0, 0, 0, 0, 0, 1]))
    );
    assert_eq!(
        hash_vector_from_digest(&digest, 15, 3),
        Err(GenerationError::InsufficientHashDensity)
    );
    assert_eq!(
        hash_vector_from_digest(&digest, 20, 2),
        Ok(bits(&[1, 0, 1, 0, 0, 0, 0, 0, 0, 0, 0, 0, 0, 0, 0, 0, 0, 0, 0, 0]))
    );
    assert_eq!(
        hash_vector_from_digest(&vec![], 4, 1),
        Err(GenerationError::InsufficientHashDensity)
    );
}

#[test]
fn helper_weight_is_the_cube_root_of_half_the_weight() {
    assert_eq!(helper_weight(100), 3);
    assert_eq!(helper_weight(54), 3);
    assert_eq!(helper_weight(53), 2);
    assert_eq!(helper_weight(14), 1);
    assert_eq!(helper_weight(1), 0);
    assert_eq!(helper_weight(0), 0);
    assert_eq!(helper_weight(250), 5);
}

#[test]
fn random_vectors_have_the_requested_weight() {
    let mut rng = ChaCha20Rng::seed_from_u64(1);
    let v = generate_random_weight_vector(50, 7, &mut rng).unwrap();
    assert_eq!(v.len(), 50);
    assert_eq!(vector_weight(&v), 7);
    assert_eq!(
        generate_random_weight_vector(5, 0, &mut rng),
        Ok(vec![false; 5])
    );
    assert_eq!(generate_random_weight_vector(0, 0, &mut rng), Ok(vec![]));
    assert_eq!(
        generate_random_weight_vector(5, 6, &mut rng),
        Err(GenerationError::InvalidParameters)
    );
    let full = generate_random_weight_vector(6, 6, &mut rng).unwrap();
    assert_eq!(full, vec![true; 6]);

    let mut v = vec![false, true];
    assert!(mark_drawn(&mut v, 0));
    assert!(!mark_drawn(&mut v, 1));
    assert_eq!(v, vec![true, true]);
}

#[test]
fn invertible_vectors_meet_both_conditions() {
    let mut rng = ChaCha20Rng::seed_from_u64(2);
    let v = generate_random_weight_vector_to_invertible_matrix(101, 7, &mut rng).unwrap();
    assert_eq!(v.len(), 101);
    assert_eq!(vector_weight(&v), 7);
    assert!(check_vector_leads_to_invertible_circulant_matrix(&v, 101));
    assert!(has_odd_upper_half(&v));
    assert_eq!(vector_weight(&v[50..101].to_vec()) % 2, 1);
    // an even weight never gives an invertible circulant block
    assert_eq!(
        generate_random_weight_vector_to_invertible_matrix(11, 2, &mut rng),
        Err(GenerationError::AttemptsExhausted)
    );
    assert_eq!(
        generate_random_weight_vector_to_invertible_matrix(3, 4, &mut rng),
        Err(GenerationError::InvalidParameters)
    );
    assert_eq!(
        GenerationError::InvalidParameters.message(),
        "Invalid parameters"
    );
    assert_eq!(
        GenerationError::AttemptsExhausted.message(),
        "Sampling attempts exhausted"
    );
    assert_eq!(
        GenerationError::InsufficientHashDensity.message(),
        "Identity hash has too few set bits"
    );
    assert_eq!(
        GenerationError::SingularIdentityVector.message(),
        "Identity vector is not invertible"
    );
}

#[test]
fn bits_and_bytes() {
    let data = [0b0000_0101u8, 0b1000_0000];
    assert!(message_bit(&data, 0));
    assert!(!message_bit(&data, 1));
    assert!(message_bit(&data, 2));
    assert!(message_bit(&data, 15));
    assert!(!message_bit(&data, 14));
    assert_eq!(pack_bits(&bits(&[1, 0, 1])), vec![0b101u8]);
    assert_eq!(
        pack_bits(&bits(&[0, 0, 0, 0, 0, 0, 0, 1, 1])),
        vec![0x80u8, 0x01]
    );
    assert_eq!(pack_bits(&vec![]), Vec::<u8>::new());
    assert_eq!(pack_bits(&vec![true; 8]), vec![0xffu8]);
}
