use democratic_pq_cle::error::{CodeError, GenerationError};
use democratic_pq_cle::mc_eliece::{decrypt, encrypt};
use democratic_pq_cle::qc_mdpc::QcMdpc;
use rand_chacha::ChaCha20Rng;
use rand_core::SeedableRng;

#[test]
fn test_encode_decode_no_error() {
    let mut rng = ChaCha20Rng::seed_from_u64(2024);
    let code = QcMdpc::init(2, 200, 30, 10, &mut rng).unwrap();
    let public_key = code.get_public_key();
    let private_key = code.get_private_key();
    let encoded = QcMdpc::encode_data(&public_key, "This is my message".as_bytes()).unwrap();
    let decoded = QcMdpc::decode_data(&private_key, &encoded).unwrap();
    assert_eq!(
        std::str::from_utf8(&decoded[0..18]).unwrap(),
        "This is my message"
    );
}

#[test]
fn test_encode_decode_on_error() {
    let mut rng = ChaCha20Rng::seed_from_u64(2024);
    let code = QcMdpc::init(2, 200, 30, 10, &mut rng).unwrap();
    let public_key = code.get_public_key();
    let private_key = code.get_private_key();
    let mut encoded = QcMdpc::encode_data(&public_key, "This is my message".as_bytes()).unwrap();
    let flipped = !encoded.get(0, 0);
    encoded.set(0, 0, flipped);
    let decoded = QcMdpc::decode_data(&private_key, &encoded).unwrap();
    assert_eq!(
        std::str::from_utf8(&decoded[0..18]).unwrap(),
        "This is my message"
    );
}

#[test]
fn test_encode_decode_two_error() {
    let mut rng = ChaCha20Rng::seed_from_u64(2024);
    let code = QcMdpc::init(2, 200, 30, 10, &mut rng).unwrap();
    let public_key = code.get_public_key();
    let private_key = code.get_private_key();
    let mut encoded = QcMdpc::encode_data(&public_key, "This is my message".as_bytes()).unwrap();
    let flipped = !encoded.get(0, 0);
    encoded.set(0, 0, flipped);
    let flipped = !encoded.get(0, 1);
    encoded.set(0, 1, flipped);
    let decoded = QcMdpc::decode_data(&private_key, &encoded).unwrap();
    assert_eq!(
        std::str::from_utf8(&decoded[0..18]).unwrap(),
        "This is my message"
    );
}

#[test]
fn test_encrypt_decrypt() {
    let mut rng = ChaCha20Rng::seed_from_u64(2024);
    let code = QcMdpc::init(2, 401, 30, 10, &mut rng).unwrap();
    let message_str = "abcdefghijklmnopqrstuvwxyzABCDEFGHIJKLMNOPQRSTUVWX";
    let message = message_str.as_bytes();
    assert_eq!(message.len(), 50);
    let public_key = code.get_public_key();
    let private_key = code.get_private_key();
    let encrypted = encrypt(&public_key, message, &mut rng).unwrap();
    let decrypted = decrypt(&private_key, &encrypted).unwrap();
    assert_eq!(
        std::str::from_utf8(&decrypted[0..message.len()]).unwrap(),
        message_str
    );
}

#[test]
fn code_generation_rejects_impossible_parameters() {
    let mut rng = ChaCha20Rng::seed_from_u64(7);
    assert_eq!(
        QcMdpc::init(1, 200, 30, 10, &mut rng).err(),
        Some(GenerationError::InvalidParameters)
    );
    assert_eq!(
        QcMdpc::init(2, 0, 0, 0, &mut rng).err(),
        Some(GenerationError::InvalidParameters)
    );
    assert_eq!(
        QcMdpc::init(2, 10, 21, 1, &mut rng).err(),
        Some(GenerationError::InvalidParameters)
    );
    assert_eq!(
        QcMdpc::init(65536, 65536, 3, 1, &mut rng).err(),
        Some(GenerationError::InvalidParameters)
    );
    // an even weight can never give an odd last block together with an
    // invertible one: weight zero exhausts the attempts
    assert_eq!(
        QcMdpc::init(2, 5, 0, 1, &mut rng).err(),
        Some(GenerationError::AttemptsExhausted)
    );
}

#[test]
fn generated_code_has_the_requested_shape_and_weight() {
    let mut rng = ChaCha20Rng::seed_from_u64(11);
    let code = QcMdpc::init(2, 101, 15, 4, &mut rng).unwrap();
    assert_eq!(code.get_row_weight(0, 201), 15);
    assert_eq!(code.get_row_weight(101, 201) % 2, 1);
    assert_eq!(
        code.get_row_weight(0, 100) + code.get_row_weight(101, 201),
        15
    );
    let public_key = code.get_public_key();
    let private_key = code.get_private_key();
    assert_eq!(public_key.max_message_length(), 101);
    assert_eq!(public_key.max_error_weight(), 4);
    assert_eq!(public_key.encoded_vector_size(), 202);
    assert_eq!(private_key.max_message_length(), 101);
    assert_eq!(private_key.expected_encoded_vector_size(), 202);
    let copy = code.clone();
    assert_eq!(copy.get_row_weight(0, 201), 15);
}

#[test]
fn encoding_is_systematic_and_decoding_returns_the_code_word() {
    let mut rng = ChaCha20Rng::seed_from_u64(3);
    let code = QcMdpc::init(2, 64, 9, 2, &mut rng).unwrap();
    let public_key = code.get_public_key();
    let private_key = code.get_private_key();
    let message = [0xa5u8, 0x01, 0xff, 0x00, 0x80, 0x7e, 0x33, 0xcc];
    let encoded = QcMdpc::encode_data(&public_key, &message).unwrap();
    assert_eq!(encoded.nrows(), 1);
    assert_eq!(encoded.ncols(), 128);
    for i in 0..64 {
        assert_eq!(encoded.get(0, i), message[i >> 3] & (1 << (i & 7)) != 0);
    }
    let decoded = QcMdpc::decode_data(&private_key, &encoded).unwrap();
    assert_eq!(decoded.len(), 16);
    assert_eq!(&decoded[0..8], &message);
    for i in 64..128 {
        assert_eq!(encoded.get(0, i), decoded[i >> 3] & (1 << (i & 7)) != 0);
    }
    assert_eq!(decrypt(&private_key, &encoded).unwrap(), message.to_vec());
}

#[test]
fn too_long_messages_and_wrong_word_sizes_are_refused() {
    let mut rng = ChaCha20Rng::seed_from_u64(5);
    let code = QcMdpc::init(2, 20, 5, 1, &mut rng).unwrap();
    let public_key = code.get_public_key();
    let private_key = code.get_private_key();
    assert_eq!(
        QcMdpc::encode_data(&public_key, &[1, 2, 3]).err(),
        Some(CodeError::DataTooLarge)
    );
    assert_eq!(
        encrypt(&public_key, &[1, 2, 3], &mut rng).err(),
        Some(CodeError::DataTooLarge)
    );
    assert!(QcMdpc::encode_data(&public_key, &[1, 2]).is_ok());
    let short = democratic_pq_cle::binary_matrix_operations::BitMatrix::from_element(1, 39, false);
    assert_eq!(
        QcMdpc::decode_data(&private_key, &short).err(),
        Some(CodeError::InvalidDataSize)
    );
    assert_eq!(
        decrypt(&private_key, &short).err(),
        Some(CodeError::InvalidDataSize)
    );
    assert_eq!(CodeError::DataTooLarge.message(), "Data is too long");
    assert_eq!(CodeError::InvalidDataSize.message(), "Invalid data size");
    assert_eq!(CodeError::DecodingFailure.message(), "Decoding failed");
}

#[test]
fn decoding_tolerates_the_designed_number_of_errors_in_most_trials() {
    let trials = 20u64;
    let mut recovered = 0;
    for seed in 0..trials {
        let mut rng = ChaCha20Rng::seed_from_u64(seed);
        let code = QcMdpc::init(2, 401, 30, 10, &mut rng).unwrap();
        let public_key = code.get_public_key();
        let private_key = code.get_private_key();
        let message = b"bit flipping is a heuristic";
        let encrypted = encrypt(&public_key, message, &mut rng).unwrap();
        let clean = QcMdpc::encode_data(&public_key, message).unwrap();
        let mut differing = 0;
        for i in 0..802 {
            if encrypted.get(0, i) != clean.get(0, i) {
                differing += 1;
            }
        }
        assert_eq!(differing, 10);
        match decrypt(&private_key, &encrypted) {
            Ok(decrypted) => {
                assert_eq!(&decrypted[0..message.len()], message);
                recovered += 1;
            }
            Err(error) => assert_eq!(error, CodeError::DecodingFailure),
        }
    }
    assert!(recovered >= 15, "recovered {} of {}", recovered, trials);
}
