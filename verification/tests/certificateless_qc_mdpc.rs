use democratic_pq_cle::binary_matrix_operations::BitMatrix;
use democratic_pq_cle::bits::vector_weight;
use democratic_pq_cle::certificateless_qc_mdpc::new_node_acceptance_signature::NewNodeAcceptanceSignature;
use democratic_pq_cle::certificateless_qc_mdpc::utils::{
    generate_hash_id_vector_correct_weight, generate_random_weight_vector_to_invertible_matrix,
};
use democratic_pq_cle::certificateless_qc_mdpc::{
    secret_vector_from_index, CertificatelessQcMdpc, SignatureParameters,
};
use democratic_pq_cle::math::CombinationError;
use num_bigint::BigUint;
use democratic_pq_cle::error::{CodeError, GenerationError};
use num_bigint::BigInt;
use rand_chacha::ChaCha20Rng;
use rand_core::SeedableRng;

const BLOCK: usize = 401;
const WEIGHT: usize = 14;
const ERRORS: usize = 3;

fn parameters() -> SignatureParameters {
    SignatureParameters {
        k: 31,
        n: 401,
        n_prime: 200,
        r: 200,
        weight_low: 90,
        weight_high: 110,
    }
}

fn node(id: usize, seed: u64) -> (CertificatelessQcMdpc, Vec<bool>, ChaCha20Rng) {
    let mut rng = ChaCha20Rng::seed_from_u64(seed);
    let s_i = generate_random_weight_vector_to_invertible_matrix(BLOCK, 7, &mut rng).unwrap();
    let node =
        CertificatelessQcMdpc::init(id, BLOCK, WEIGHT, ERRORS, &s_i, parameters(), &mut rng)
            .unwrap();
    (node, s_i, rng)
}

#[test]
fn node_publishes_key_encrypts_and_accepts_a_candidate() {
    let (node_1, s_i, mut rng) = node(1, 1);
    assert_eq!(vector_weight(&s_i), 7);
    let (public_key, witness) = node_1.public_key_and_witness();
    assert!(public_key.check_is_valid(1, &s_i, &witness, WEIGHT));

    let private_key = node_1.private_key();
    let message = "abcd";
    let encrypted = public_key.encrypt(message.as_bytes(), &mut rng).unwrap();
    assert_eq!(encrypted.nrows(), 1);
    assert_eq!(encrypted.ncols(), 2 * BLOCK);
    let encrypted_bis = public_key.encrypt(message.as_bytes(), &mut rng).unwrap();
    let decrypted = private_key
        .decrypt(&encrypted)
        .or(private_key.decrypt(&encrypted_bis))
        .unwrap();
    assert_eq!(std::str::from_utf8(&decrypted[0..4]).unwrap(), message);

    let signature = node_1.accept_new_node(2).unwrap();
    assert_eq!(signature.signing_node_id(), 1);
    assert_eq!(signature.signature().len(), 401);
    let weight = vector_weight(&signature.signature());
    assert!(90 <= weight && weight <= 110, "signature weight {}", weight);
    assert!(signature.is_valid(&witness, 2, &parameters()));

    let (x, y) = signature.to_shamir_share();
    assert_eq!(x, 1);
    assert!(y >= BigInt::from(0));
    assert!(y < (BigInt::from(1) << 401usize));
    let mut expected = BigInt::from(0);
    for (position, bit) in signature.signature().iter().enumerate() {
        if *bit {
            expected += BigInt::from(1) << position;
        }
    }
    assert_eq!(y, expected);
}

#[test]
fn signature_is_bound_to_the_candidate_and_the_signer() {
    let (node_1, _, _) = node(1, 1);
    let (_, witness_1) = node_1.public_key_and_witness();
    let signature = node_1.accept_new_node(2).unwrap();
    assert!(signature.is_valid(&witness_1, 2, &parameters()));
    assert!(!signature.is_valid(&witness_1, 3, &parameters()));
    assert!(!signature.is_valid(&witness_1, 5, &parameters()));

    let (node_7, _, _) = node(7, 9);
    let (_, witness_7) = node_7.public_key_and_witness();
    assert!(!signature.is_valid(&witness_7, 2, &parameters()));

    // the weight must lie in the interval
    let mut narrow = parameters();
    narrow.weight_low = 0;
    narrow.weight_high = 10;
    assert!(!signature.is_valid(&witness_1, 2, &narrow));
    let mut wide = parameters();
    wide.weight_low = 0;
    wide.weight_high = 401;
    assert!(signature.is_valid(&witness_1, 2, &wide));

    // a changed signature no longer satisfies the check
    let mut row = signature.signature();
    row[0] = !row[0];
    let forged = NewNodeAcceptanceSignature::new(1, &row);
    assert!(!forged.is_valid(&witness_1, 2, &wide));
    let copy = NewNodeAcceptanceSignature::new(1, &signature.signature());
    assert_eq!(copy, signature);
    assert!(copy.clone().is_valid(&witness_1, 2, &parameters()));
}

#[test]
fn candidates_without_enough_hash_density_are_refused() {
    let mut rng = ChaCha20Rng::seed_from_u64(4);
    let s_i = generate_random_weight_vector_to_invertible_matrix(BLOCK, 7, &mut rng).unwrap();
    let mut wider = parameters();
    wider.k = 32;
    let node =
        CertificatelessQcMdpc::init(1, BLOCK, WEIGHT, ERRORS, &s_i, wider, &mut rng).unwrap();
    // 15 of the first 32 bits of the hash of "2" are set, 16 are asked for
    assert!(generate_hash_id_vector_correct_weight(2, 32, 16).is_err());
    assert_eq!(
        node.accept_new_node(2).err(),
        Some(GenerationError::InsufficientHashDensity)
    );
    let (_, witness) = node.public_key_and_witness();
    let signature = node.accept_new_node(3).unwrap();
    let mut any_weight = wider;
    any_weight.weight_low = 0;
    any_weight.weight_high = 401;
    assert!(signature.is_valid(&witness, 3, &any_weight));
    assert!(!signature.is_valid(&witness, 2, &any_weight));
}

#[test]
fn public_key_check_fails_on_any_perturbation() {
    let (node_1, s_i, _) = node(1, 3);
    let (public_key, witness) = node_1.public_key_and_witness();
    assert!(public_key.check_is_valid(1, &s_i, &witness, WEIGHT));
    assert!(public_key.clone().check_is_valid(1, &s_i, &witness.clone(), WEIGHT));

    for position in [0usize, 1, 200, 400] {
        let mut other = s_i.clone();
        other[position] = !other[position];
        assert!(!public_key.check_is_valid(1, &other, &witness, WEIGHT));
    }
    for position in [0usize, 7, 399, 400] {
        let mut other = witness.clone();
        other.pubkey_witness_vector[position] = !other.pubkey_witness_vector[position];
        assert!(!public_key.check_is_valid(1, &s_i, &other, WEIGHT));
    }
    // with helper weight 1 the vector of an identity is the first set bit of its hash:
    // bit 1 for the identities 1 and 2, bit 0 for the identity 5
    assert!(public_key.check_is_valid(2, &s_i, &witness, WEIGHT));
    assert!(!public_key.check_is_valid(5, &s_i, &witness, WEIGHT));
    // another weight gives another helper weight, and an even one no inverse
    assert!(!public_key.check_is_valid(1, &s_i, &witness, 100));
    assert!(!public_key.check_is_valid(1, &s_i, &witness, 30));
    // wrong lengths
    assert!(!public_key.check_is_valid(1, &s_i[0..400], &witness, WEIGHT));
    let mut short = witness.clone();
    short.pubkey_witness_vector.pop();
    assert!(!public_key.check_is_valid(1, &s_i, &short, WEIGHT));

    let (node_2, s_2, _) = node(1, 8);
    let (public_key_2, witness_2) = node_2.public_key_and_witness();
    assert!(public_key_2.check_is_valid(1, &s_2, &witness_2, WEIGHT));
    assert!(!public_key.check_is_valid(1, &s_2, &witness_2, WEIGHT));
    assert!(!public_key_2.check_is_valid(1, &s_i, &witness, WEIGHT));
}

#[test]
fn witness_has_the_dimensions_of_the_parameters() {
    let (node_1, _, _) = node(1, 5);
    let (_, witness) = node_1.public_key_and_witness();
    assert_eq!(witness.pubkey_witness_vector.len(), 401);
    assert_eq!(witness.signature_parity_matrix.nrows(), 200);
    assert_eq!(witness.signature_parity_matrix.ncols(), 401);
    assert_eq!(witness.signature_multiplication_matrix.nrows(), 200);
    assert_eq!(witness.signature_multiplication_matrix.ncols(), 31);
    for i in 0..200 {
        for j in 0..200 {
            assert_eq!(witness.signature_parity_matrix.get(i, j), i == j);
        }
    }
    // the right part is the top left corner of the circulant block of the witness vector
    for i in [0usize, 1, 77, 199] {
        for j in [0usize, 3, 200] {
            assert_eq!(
                witness.signature_parity_matrix.get(i, 200 + j),
                witness.pubkey_witness_vector[(j + 401 - i) % 401]
            );
        }
    }
}

#[test]
fn private_key_decodes_and_describes_itself() {
    let (node_1, _, mut rng) = node(1, 6);
    let (public_key, _) = node_1.public_key_and_witness();
    let private_key = node_1.private_key();
    let line = private_key.first_line();
    assert_eq!(line.len(), 802);
    assert_eq!(private_key.weight(), vector_weight(&line));
    // h_i_3 has weight 7, and so has the product of the secret vector with two monomials
    assert_eq!(private_key.weight(), 14);
    let text = private_key.to_string();
    assert_eq!(text.len(), 401 * 803);
    let first: String = line.iter().map(|b| if *b { '1' } else { '0' }).collect();
    assert_eq!(&text[0..802], first);
    assert_eq!(&text[802..803], "\n");
    assert_eq!(private_key.clone(), private_key);

    // a code word without errors has a zero syndrome and decodes to itself
    let zero_errors = {
        let mut rng = ChaCha20Rng::seed_from_u64(6);
        let s_i = generate_random_weight_vector_to_invertible_matrix(BLOCK, 7, &mut rng).unwrap();
        CertificatelessQcMdpc::init(1, BLOCK, WEIGHT, 0, &s_i, parameters(), &mut rng).unwrap()
    };
    let (clean_key, _) = zero_errors.public_key_and_witness();
    let clean = clean_key.encrypt(b"no errors", &mut rng).unwrap();
    let decoded = zero_errors.private_key().decrypt(&clean).unwrap();
    assert_eq!(decoded.len(), 101);
    assert_eq!(&decoded[0..9], b"no errors");
    for i in 0..802 {
        assert_eq!(clean.get(0, i), decoded[i >> 3] & (1 << (i & 7)) != 0);
    }

    let zero_syndrome = BitMatrix::from_element(401, 1, false);
    assert_eq!(
        private_key.decrypt_syndrome(&zero_syndrome),
        Ok(vec![false; 802])
    );
    // the syndrome of a single error is the column of that position
    let single = private_key_column(&node_1, 5);
    let mut expected = vec![false; 802];
    expected[5] = true;
    assert_eq!(private_key.decrypt_syndrome(&single), Ok(expected));

    assert_eq!(
        private_key.decrypt_syndrome(&BitMatrix::from_element(400, 1, false)),
        Err(CodeError::InvalidDataSize)
    );
    assert_eq!(
        private_key.decrypt_syndrome(&BitMatrix::from_element(401, 2, false)),
        Err(CodeError::InvalidDataSize)
    );
    assert_eq!(
        private_key.decrypt(&BitMatrix::from_element(1, 801, false)),
        Err(CodeError::InvalidDataSize)
    );
    assert_eq!(
        private_key.decrypt(&BitMatrix::from_element(2, 802, false)),
        Err(CodeError::InvalidDataSize)
    );
    assert_eq!(
        public_key.encrypt(&[0u8; 51], &mut rng).err(),
        Some(CodeError::DataTooLarge)
    );
    assert!(public_key.encrypt(&[0u8; 50], &mut rng).is_ok());
}

fn private_key_column(node: &CertificatelessQcMdpc, position: usize) -> BitMatrix {
    // the parity-check matrix is made of two circulant blocks: column j of the
    // first holds the first row moved down by j
    let line = node.private_key().first_line();
    let mut column = BitMatrix::from_element(401, 1, false);
    for row in 0..401 {
        column.set(row, 0, line[(position + 401 - row) % 401]);
    }
    column
}

#[test]
fn node_derivation_reports_its_failures() {
    let mut rng = ChaCha20Rng::seed_from_u64(12);
    let s_i = generate_random_weight_vector_to_invertible_matrix(BLOCK, 7, &mut rng).unwrap();
    // the standard dimensions belong to much larger blocks
    assert_eq!(
        CertificatelessQcMdpc::init(
            1,
            BLOCK,
            WEIGHT,
            ERRORS,
            &s_i,
            SignatureParameters::standard(),
            &mut rng
        )
        .err(),
        Some(GenerationError::InvalidParameters)
    );
    assert!(SignatureParameters::standard().fits_block_size(8009));
    assert!(!SignatureParameters::standard().fits_block_size(401));
    assert!(parameters().fits_block_size(401));
    assert_eq!(SignatureParameters::standard().k, 160);
    assert_eq!(SignatureParameters::standard().n, 2000);
    assert_eq!(SignatureParameters::standard().n_prime, 1000);
    assert_eq!(SignatureParameters::standard().r, 1100);
    assert_eq!(SignatureParameters::standard().weight_low, 470);
    assert_eq!(SignatureParameters::standard().weight_high, 530);
    // weight 30 gives helper vectors of weight 2, which are never invertible
    assert_eq!(
        CertificatelessQcMdpc::init(1, BLOCK, 30, ERRORS, &s_i, parameters(), &mut rng).err(),
        Some(GenerationError::SingularIdentityVector)
    );
    // an identity whose hash has fewer than two set bits among its first
    // eight: blocks of eight bits and weight 16 ask for helper weight 2
    let small = SignatureParameters {
        k: 1,
        n: 2,
        n_prime: 2,
        r: 1,
        weight_low: 0,
        weight_high: 2,
    };
    let thin = (0usize..100_000)
        .find(|id| generate_hash_id_vector_correct_weight(*id, 8, 2).is_err())
        .unwrap();
    let unit = vec![true, false, false, false, false, false, false, false];
    assert_eq!(
        CertificatelessQcMdpc::init(thin, 8, 16, 0, &unit, small, &mut rng).err(),
        Some(GenerationError::InsufficientHashDensity)
    );
    // every identity with two set bits there has an even, singular vector
    let dense = (0usize..100_000)
        .find(|id| generate_hash_id_vector_correct_weight(*id, 8, 2).is_ok())
        .unwrap();
    assert_eq!(
        CertificatelessQcMdpc::init(dense, 8, 16, 0, &unit, small, &mut rng).err(),
        Some(GenerationError::SingularIdentityVector)
    );
}

#[test]
fn shamir_share_packs_the_signature_bits() {
    let signature = NewNodeAcceptanceSignature::new(5, &vec![true, false, true, true]);
    assert_eq!(signature.to_shamir_share(), (5, BigInt::from(13)));
    let signature = NewNodeAcceptanceSignature::new(9, &vec![false; 70]);
    assert_eq!(signature.to_shamir_share(), (9, BigInt::from(0)));
    let mut row = vec![false; 70];
    row[69] = true;
    row[0] = true;
    let signature = NewNodeAcceptanceSignature::new(2, &row);
    assert_eq!(
        signature.to_shamir_share(),
        (2, (BigInt::from(1) << 69usize) + BigInt::from(1))
    );
    let empty = NewNodeAcceptanceSignature::new(3, &vec![]);
    assert_eq!(empty.to_shamir_share(), (3, BigInt::from(0)));
}

#[test]
fn secret_vector_is_the_combination_at_the_reduced_index() {
    let bits =
        |set: &[usize], p: usize| -> Vec<bool> { (0..p).map(|i| set.contains(&i)).collect() };
    assert_eq!(
        secret_vector_from_index(5, 3, BigUint::from(0u32)),
        Ok(bits(&[0, 1, 2], 5))
    );
    assert_eq!(
        secret_vector_from_index(5, 3, BigUint::from(3u32)),
        Ok(bits(&[0, 2, 3], 5))
    );
    // there are ten combinations: the index is taken modulo ten
    assert_eq!(
        secret_vector_from_index(5, 3, BigUint::from(13u32)),
        Ok(bits(&[0, 2, 3], 5))
    );
    assert_eq!(
        secret_vector_from_index(5, 3, BigUint::from(10u32)),
        Ok(bits(&[0, 1, 2], 5))
    );
    assert_eq!(
        secret_vector_from_index(5, 3, BigUint::from(1_000_000_009u32)),
        Ok(bits(&[2, 3, 4], 5))
    );
    // 148166658473837 + 313843099039800, the number of combinations
    assert_eq!(
        secret_vector_from_index(401, 7, BigUint::from(462009757513637u64)),
        Ok(bits(&[34, 103, 186, 203, 230, 275, 323], 401))
    );
    assert_eq!(
        secret_vector_from_index(4, 0, BigUint::from(77u32)),
        Ok(vec![false; 4])
    );
    assert_eq!(
        secret_vector_from_index(3, 4, BigUint::from(0u32)),
        Err(CombinationError::SubsetTooLarge)
    );
}

#[test]
fn a_third_helper_vector_heavier_than_the_block_is_refused() {
    let mut rng = ChaCha20Rng::seed_from_u64(21);
    let s_i = generate_random_weight_vector_to_invertible_matrix(BLOCK, 7, &mut rng).unwrap();
    // half of 804 is more than the 401 bits of a block
    assert_eq!(
        CertificatelessQcMdpc::init(1, BLOCK, 804, ERRORS, &s_i, parameters(), &mut rng).err(),
        Some(GenerationError::InvalidParameters)
    );
}
