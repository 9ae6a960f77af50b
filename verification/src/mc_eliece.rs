//! McEliece encryption over a quasi-cyclic code: a code word with errors
//! added on purpose, which only the holder of the parity checks can remove.

use crate::binary_matrix_operations::{expect_matrix, BitMatrix};
use crate::bits::{is_packing_of, pack_bits, weight};
use crate::certificateless_qc_mdpc::utils::generate_random_weight_vector;
use crate::error::{CodeError, GenerationError};
use crate::grid::{row_grid, sum};
use crate::qc_mdpc::{
    codeword, decode_word, decoded_word, QcMdpc, QcMdpcPrivateKey, QcMdpcPublicKey,
};
use rand_chacha::ChaCha20Rng;
use vstd::prelude::*;

verus! {

/// A one-row matrix of `n` bits of which `error_count` are set, at
/// positions drawn from `rng`.
pub fn get_error_vector(n: usize, error_count: usize, rng: &mut ChaCha20Rng) -> (r: Result<
    BitMatrix,
    GenerationError,
>)
    ensures
        error_count > n <==> r == Err::<BitMatrix, GenerationError>(
            GenerationError::InvalidParameters,
        ),
        error_count == 0 ==> r is Ok,
        r matches Ok(m) ==> m@.has_shape(1, n as nat) && weight(m@.rows[0]) == error_count,
        r matches Err(e) ==> e == GenerationError::InvalidParameters || e
            == GenerationError::AttemptsExhausted,
{
    match generate_random_weight_vector(n, error_count, rng) {
        Ok(v) => Ok(BitMatrix::from_row_vector(&v)),
        Err(e) => Err(e),
    }
}

/// The code word of `data` with errors added at `t` positions drawn from
/// `rng`, `t` being the error weight of the key.
pub fn encrypt(public_key: &QcMdpcPublicKey, data: &[u8], rng: &mut ChaCha20Rng) -> (r: Result<
    BitMatrix,
    CodeError,
>)
    ensures
        8 * data@.len() > public_key@.k <==> r == Err::<BitMatrix, CodeError>(
            CodeError::DataTooLarge,
        ),
        8 * data@.len() <= public_key@.k && public_key@.t == 0 ==> r is Ok,
        8 * data@.len() <= public_key@.k && public_key@.t > public_key@.n ==> r == Err::<
            BitMatrix,
            CodeError,
        >(CodeError::NoiseUnavailable),
        r matches Ok(c) ==> exists|e: Seq<bool>|
            e.len() == public_key@.n && weight(e) == public_key@.t && c@ == sum(
                codeword(public_key@.generator, data@),
                #[trigger] row_grid(e),
            ),
        r matches Err(e) ==> e == CodeError::DataTooLarge || e == CodeError::NoiseUnavailable,
{
    let encoded = match QcMdpc::encode_data(public_key, data) {
        Ok(c) => c,
        Err(e) => {
            return Err(e);
        },
    };
    let n = public_key.encoded_vector_size();
    match get_error_vector(n, public_key.max_error_weight(), rng) {
        Ok(noise) => {
            let c = expect_matrix(encoded.plus(&noise));
            proof {
                let e = noise@.rows[0];
                assert(noise@.rows =~= row_grid(e).rows);
                assert(c@ == sum(codeword(public_key@.generator, data@), row_grid(e)));
            }
            Ok(c)
        },
        Err(_) => Err(CodeError::NoiseUnavailable),
    }
}

/// The message bits of a received word: the word is corrected by bit
/// flipping, and its first `k` bits are packed into bytes.
pub fn decrypt(private_key: &QcMdpcPrivateKey, data: &BitMatrix) -> (r: Result<Vec<u8>, CodeError>)
    ensures
        (data@.height() != 1 || data@.width != private_key@.n) <==> r == Err::<Vec<u8>, CodeError>(
            CodeError::InvalidDataSize,
        ),
        data@.height() == 1 && data@.width == private_key@.n ==> (match decoded_word(
            private_key@.parity_check,
            data@.rows[0],
        ) {
            Some(word) => r is Ok && is_packing_of(
                r.unwrap()@,
                word.subrange(0, private_key@.k as int),
            ),
            None => r == Err::<Vec<u8>, CodeError>(CodeError::DecodingFailure),
        }),
{
    let n = private_key.expected_encoded_vector_size();
    if data.nrows() != 1 || data.ncols() != n {
        return Err(CodeError::InvalidDataSize);
    }
    let word = data.row(0);
    match decode_word(private_key.parity_check_matrix(), &word) {
        Some(mut corrected) => {
            proof {
                assert(corrected@.len() == n);
            }
            corrected.truncate(private_key.max_message_length());
            Ok(pack_bits(&corrected))
        },
        None => Err(CodeError::DecodingFailure),
    }
}

} // verus!
