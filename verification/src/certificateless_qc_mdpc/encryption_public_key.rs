//! The public key of a node: a systematic generator matrix that anyone
//! can check against the node's identity, secret vector and witness.

use crate::binary_matrix_operations::{
    concat_horizontally_mat, expect_matrix, make_circulant_matrix, make_identity_matrix, BitMatrix,
};
use crate::bits::{bytes_to_bits, message_bit, weight};
use crate::certificateless_qc_mdpc::utils::{
    generate_hash_id_vector_correct_weight, generate_random_weight_vector, helper_weight,
    helper_weight_of, identity_vector, multiply_2_matrix_first_line_vector,
    try_invert_matrix_vector,
};
use crate::certificateless_qc_mdpc::witness_signing_pub_key::NodeWitnessSigPubKey;
use crate::certificateless_qc_mdpc::NodeView;
use crate::error::{CodeError, GenerationError};
use crate::grid::{circ, hcat, identity, row_grid, sum, transpose, Grid};
use crate::polynomial::{
    convolve, cyclic_inverse, has_cyclic_inverse, lemma_circ_first_row,
    lemma_convolve_associative, lemma_convolve_cancel, lemma_convolve_commutative,
    lemma_cyclic_inverse_facts, lemma_flip_loses_inverse, lemma_product_has_inverse,
};
use crate::qc_mdpc::codeword;
use rand_chacha::ChaCha20Rng;
use vstd::prelude::*;

verus! {

/// The generator matrix of a node with its parameters.
#[derive(Debug, PartialEq, Eq)]
pub struct CertificatelessQcMdpcPublicKey {
    generator_matrix: BitMatrix,
    max_message_size_bits: usize,
    errors_count: usize,
}

/// What a public key holds.
pub struct PublicKeyView {
    pub generator_matrix: Grid,
    pub max_message_size_bits: nat,
    pub errors_count: nat,
}

impl View for CertificatelessQcMdpcPublicKey {
    type V = PublicKeyView;

    closed spec fn view(&self) -> PublicKeyView {
        PublicKeyView {
            generator_matrix: self.generator_matrix@,
            max_message_size_bits: self.max_message_size_bits as nat,
            errors_count: self.errors_count as nat,
        }
    }
}

impl Clone for CertificatelessQcMdpcPublicKey {
    fn clone(&self) -> (r: Self)
        ensures
            r@ == self@,
    {
        proof {
            use_type_invariant(self);
        }
        CertificatelessQcMdpcPublicKey {
            generator_matrix: self.generator_matrix.clone(),
            max_message_size_bits: self.max_message_size_bits,
            errors_count: self.errors_count,
        }
    }
}

/// The systematic generator `[I_p | C^T]`, `C` being the circulant matrix
/// with first row `redundancy`.
pub open spec fn systematic_generator(redundancy: Seq<bool>) -> Grid {
    hcat(identity(redundancy.len()), transpose(circ(redundancy)))
}

/// The generator matrix that follows from an identity, a secret vector and
/// a witness vector of `p` bits each, for a code of row weight `weight`;
/// `None` where a length is not `p`, the identity has no vector of the
/// helper weight, or the secret vector or the identity's vector has no
/// inverse.
pub open spec fn claimed_generator(
    node_id: nat,
    s_i: Seq<bool>,
    r_i: Seq<bool>,
    weight: nat,
    p: nat,
) -> Option<Grid> {
    if s_i.len() != p || r_i.len() != p || !has_cyclic_inverse(s_i) {
        None
    } else {
        match identity_vector(node_id, p, helper_weight_of(weight)) {
            None => None,
            Some(h_i_1) => if has_cyclic_inverse(h_i_1) {
                Some(
                    systematic_generator(
                        convolve(convolve(cyclic_inverse(s_i), cyclic_inverse(h_i_1)), r_i),
                    ),
                )
            } else {
                None
            },
        }
    }
}

/// A systematic generator determines its redundancy row.
pub proof fn lemma_systematic_generator_injective(x: Seq<bool>, y: Seq<bool>)
    requires
        x.len() == y.len(),
        systematic_generator(x) == systematic_generator(y),
    ensures
        x == y,
{
    let p = x.len() as int;
    assert forall|j: int| 0 <= j < p implies x[j] == y[j] by {
        lemma_circ_first_row(x);
        lemma_circ_first_row(y);
        let gx = systematic_generator(x);
        let gy = systematic_generator(y);
        assert(gx.at(j, p + 0) == transpose(circ(x)).at(j, 0));
        assert(gy.at(j, p + 0) == transpose(circ(y)).at(j, 0));
        assert(circ(x).rows[0][j] == x[j]);
        assert(circ(y).rows[0][j] == y[j]);
    }
    assert(x =~= y);
}

/// The public key of a node is valid against the node's identity, its
/// secret vector and the witness published with the key.
pub proof fn law_own_key_is_valid(node: NodeView)
    requires
        node.valid(),
    ensures
        claimed_generator(node.node_id, node.secret_vector, node.witness_vector(), node.w, node.p)
            == Some(node.generator()),
{
    let a = cyclic_inverse(node.secret_vector);
    let b = cyclic_inverse(node.h_i_1);
    let c = cyclic_inverse(node.h_i_2);
    lemma_cyclic_inverse_facts(node.secret_vector);
    lemma_cyclic_inverse_facts(node.h_i_1);
    lemma_cyclic_inverse_facts(node.h_i_2);
    lemma_convolve_associative(convolve(a, b), c, node.h_i_3);
}

/// A public key is not valid against a witness vector other than the one
/// published with it: changing a single bit of the witness vector, or more,
/// makes the check fail.
pub proof fn law_other_witness_is_refused(node: NodeView, witness_vector: Seq<bool>)
    requires
        node.valid(),
        witness_vector != node.witness_vector(),
    ensures
        claimed_generator(node.node_id, node.secret_vector, witness_vector, node.w, node.p)
            != Some(node.generator()),
{
    let a = cyclic_inverse(node.secret_vector);
    let b = cyclic_inverse(node.h_i_1);
    lemma_cyclic_inverse_facts(node.secret_vector);
    lemma_cyclic_inverse_facts(node.h_i_1);
    lemma_cyclic_inverse_facts(node.h_i_2);
    let ab = convolve(a, b);
    law_own_key_is_valid(node);
    if witness_vector.len() == node.p && claimed_generator(
        node.node_id,
        node.secret_vector,
        witness_vector,
        node.w,
        node.p,
    ) == Some(node.generator()) {
        lemma_systematic_generator_injective(
            convolve(ab, witness_vector),
            convolve(ab, node.witness_vector()),
        );
        lemma_product_has_inverse(a, b);
        lemma_convolve_cancel(ab, witness_vector, node.witness_vector());
    }
}

/// A public key is not valid against the node's secret vector with one bit
/// changed: the changed vector has even weight and with it no inverse.
pub proof fn law_flipped_secret_is_refused(node: NodeView, j: int)
    requires
        node.valid(),
        0 <= j < node.p,
    ensures
        claimed_generator(
            node.node_id,
            node.secret_vector.update(j, !node.secret_vector[j]),
            node.witness_vector(),
            node.w,
            node.p,
        ) is None,
{
    lemma_flip_loses_inverse(node.secret_vector, j);
}

/// A public key is not valid against the published witness vector with one
/// bit changed.
pub proof fn law_flipped_witness_is_refused(node: NodeView, j: int)
    requires
        node.valid(),
        0 <= j < node.p,
    ensures
        claimed_generator(
            node.node_id,
            node.secret_vector,
            node.witness_vector().update(j, !node.witness_vector()[j]),
            node.w,
            node.p,
        ) != Some(node.generator()),
{
    let r = node.witness_vector();
    lemma_cyclic_inverse_facts(node.h_i_2);
    assert(r.len() == node.p);
    assert(r.update(j, !r[j])[j] != r[j]);
    law_other_witness_is_refused(node, r.update(j, !r[j]));
}

/// A public key whose third helper vector is invertible is not valid
/// against a secret vector other than the node's own: changing a single bit
/// of the secret vector, or more, makes the check fail.
pub proof fn law_other_secret_is_refused(node: NodeView, secret_vector: Seq<bool>)
    requires
        node.valid(),
        has_cyclic_inverse(node.h_i_3),
        secret_vector != node.secret_vector,
    ensures
        claimed_generator(node.node_id, secret_vector, node.witness_vector(), node.w, node.p)
            != Some(node.generator()),
{
    let a = cyclic_inverse(node.secret_vector);
    let b = cyclic_inverse(node.h_i_1);
    let c = cyclic_inverse(node.h_i_2);
    let r = node.witness_vector();
    lemma_cyclic_inverse_facts(node.secret_vector);
    lemma_cyclic_inverse_facts(node.h_i_1);
    lemma_cyclic_inverse_facts(node.h_i_2);
    law_own_key_is_valid(node);
    if secret_vector.len() == node.p && has_cyclic_inverse(secret_vector) && claimed_generator(
        node.node_id,
        secret_vector,
        r,
        node.w,
        node.p,
    ) == Some(node.generator()) {
        let a2 = cyclic_inverse(secret_vector);
        lemma_cyclic_inverse_facts(secret_vector);
        let ab = convolve(a, b);
        let a2b = convolve(a2, b);
        lemma_systematic_generator_injective(convolve(a2b, r), convolve(ab, r));
        // cancel the witness vector, then the inverse of the first helper vector
        lemma_product_has_inverse(c, node.h_i_3);
        lemma_convolve_commutative(a2b, r);
        lemma_convolve_commutative(ab, r);
        lemma_convolve_cancel(r, a2b, ab);
        lemma_convolve_commutative(a2, b);
        lemma_convolve_commutative(a, b);
        lemma_convolve_cancel(b, a2, a);
        // equal inverses belong to equal vectors
        assert(secret_vector == cyclic_inverse(a2));
    }
}

impl CertificatelessQcMdpcPublicKey {
    #[verifier::type_invariant]
    spec fn well_formed(&self) -> bool {
        &&& 2 * self.max_message_size_bits <= usize::MAX
        &&& self.generator_matrix@.has_shape(
            self.max_message_size_bits as nat,
            (2 * self.max_message_size_bits) as nat,
        )
    }

    /// A key from its generator matrix of `p` rows and `2 * p` columns.
    pub(crate) fn from_parts(generator_matrix: BitMatrix, p: usize, errors_count: usize) -> (key:
        Self)
        requires
            2 * p <= usize::MAX,
            generator_matrix@.has_shape(p as nat, (2 * p) as nat),
        ensures
            key@ == (PublicKeyView {
                generator_matrix: generator_matrix@,
                max_message_size_bits: p as nat,
                errors_count: errors_count as nat,
            }),
    {
        CertificatelessQcMdpcPublicKey { generator_matrix, max_message_size_bits: p, errors_count }
    }

    /// The code word of `data` with errors added at as many positions,
    /// drawn from `rng`, as the key asks for.
    pub fn encrypt(&self, data: &[u8], rng: &mut ChaCha20Rng) -> (r: Result<BitMatrix, CodeError>)
        ensures
            8 * data@.len() > self@.max_message_size_bits <==> r == Err::<BitMatrix, CodeError>(
                CodeError::DataTooLarge,
            ),
            8 * data@.len() <= self@.max_message_size_bits && self@.errors_count == 0 ==> r is Ok,
            8 * data@.len() <= self@.max_message_size_bits && self@.errors_count > 2
                * self@.max_message_size_bits ==> r == Err::<BitMatrix, CodeError>(
                CodeError::NoiseUnavailable,
            ),
            r matches Ok(c) ==> exists|e: Seq<bool>|
                e.len() == 2 * self@.max_message_size_bits && weight(e) == self@.errors_count
                    && c@ == sum(
                    codeword(self@.generator_matrix, data@),
                    #[trigger] row_grid(e),
                ),
            r matches Err(e) ==> e == CodeError::DataTooLarge || e == CodeError::NoiseUnavailable,
    {
        proof {
            use_type_invariant(self);
        }
        let k = self.max_message_size_bits;
        if data.len() > k / 8 {
            return Err(CodeError::DataTooLarge);
        }
        let used = data.len() * 8;
        let mut bits: Vec<bool> = Vec::new();
        let mut i: usize = 0;
        while i < k
            invariant
                i <= k,
                used == 8 * data@.len(),
                used <= k,
                bits.len() == i,
                forall|q: int|
                    0 <= q < i ==> #[trigger] bits[q] == bytes_to_bits(data@, k as nat)[q],
            decreases k - i,
        {
            let bit = i < used && message_bit(data, i);
            bits.push(bit);
            i = i + 1;
        }
        assert(bits@ =~= bytes_to_bits(data@, k as nat));
        let message = BitMatrix::from_row_vector(&bits);
        let encoded = expect_matrix(message.multiply(&self.generator_matrix));
        match self.get_error_vector(rng) {
            Ok(noise) => {
                let c = expect_matrix(encoded.plus(&noise));
                proof {
                    let e = noise@.rows[0];
                    assert(noise@.rows =~= row_grid(e).rows);
                    assert(c@ == sum(codeword(self@.generator_matrix, data@), row_grid(e)));
                }
                Ok(c)
            },
            Err(_) => Err(CodeError::NoiseUnavailable),
        }
    }

    /// Whether this key is the one that follows from the identity
    /// `node_id`, the secret vector `s_i` and the witness: the generator
    /// matrix is rebuilt from them and compared bit for bit.
    pub fn check_is_valid(
        &self,
        node_id: usize,
        s_i: &[bool],
        witness: &NodeWitnessSigPubKey,
        weight: usize,
    ) -> (b: bool)
        ensures
            b == (claimed_generator(
                node_id as nat,
                s_i@,
                witness@.pubkey_witness_vector,
                weight as nat,
                self@.max_message_size_bits,
            ) == Some(self@.generator_matrix)),
    {
        proof {
            use_type_invariant(self);
        }
        let p = self.max_message_size_bits;
        if p != s_i.len() || p != witness.pubkey_witness_vector.len() {
            return false;
        }
        let s_i_inv = match try_invert_matrix_vector(s_i) {
            None => {
                return false;
            },
            Some(inverse) => inverse,
        };
        let helper = helper_weight(weight);
        let h_i_1 = match generate_hash_id_vector_correct_weight(node_id, p, helper) {
            Err(_) => {
                return false;
            },
            Ok(v) => v,
        };
        let h_i_1_inv = match try_invert_matrix_vector(h_i_1.as_slice()) {
            None => {
                return false;
            },
            Some(inverse) => inverse,
        };
        let both = multiply_2_matrix_first_line_vector(s_i_inv.as_slice(), h_i_1_inv.as_slice());
        let redundancy = multiply_2_matrix_first_line_vector(
            both.as_slice(),
            witness.pubkey_witness_vector.as_slice(),
        );
        let right = make_circulant_matrix(redundancy.as_slice(), p, p, 1).transposed();
        let mut rebuilt = make_identity_matrix(p);
        let r = concat_horizontally_mat(&mut rebuilt, &right);
        assert(r is Ok);
        rebuilt.equals(&self.generator_matrix)
    }

    /// A one-row matrix with as many set bits, at positions drawn from
    /// `rng`, as the key asks errors for.
    fn get_error_vector(&self, rng: &mut ChaCha20Rng) -> (r: Result<BitMatrix, GenerationError>)
        ensures
            self@.errors_count == 0 ==> r is Ok,
            self@.errors_count > 2 * self@.max_message_size_bits ==> r is Err,
            r matches Ok(m) ==> m@.has_shape(1, 2 * self@.max_message_size_bits) && weight(
                m@.rows[0],
            ) == self@.errors_count,
    {
        proof {
            use_type_invariant(self);
        }
        let n = self.max_message_size_bits * 2;
        match generate_random_weight_vector(n, self.errors_count, rng) {
            Ok(v) => Ok(BitMatrix::from_row_vector(&v)),
            Err(e) => Err(e),
        }
    }
}

} // verus!
