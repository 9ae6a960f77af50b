//! Certificateless key derivation and node admission.

pub mod encryption_private_key;
pub mod encryption_public_key;
pub mod new_node_acceptance_signature;
pub mod utils;
pub mod witness_signing_pub_key;

pub use crate::certificateless_qc_mdpc::encryption_private_key::CertificatelessQcMdpcPrivateKey;
pub use crate::certificateless_qc_mdpc::encryption_public_key::CertificatelessQcMdpcPublicKey;
pub use crate::certificateless_qc_mdpc::new_node_acceptance_signature::NewNodeAcceptanceSignature;
pub use crate::certificateless_qc_mdpc::utils::generate_random_weight_vector_to_invertible_matrix;
pub use crate::certificateless_qc_mdpc::witness_signing_pub_key::NodeWitnessSigPubKey;

use crate::bignum::{
    biguint_div, biguint_mul, biguint_sub, biguint_value, random_biguint_below,
};
use crate::binary_matrix_operations::{
    concat_horizontally_mat, expect_matrix, make_circulant_matrix, make_identity_matrix, rect,
    BitMatrix,
};
use crate::bits::{lemma_count_ones_bound, lemma_count_ones_listed, weight};
use crate::certificateless_qc_mdpc::encryption_private_key::PrivateKeyView;
use crate::certificateless_qc_mdpc::encryption_public_key::{systematic_generator, PublicKeyView};
use crate::certificateless_qc_mdpc::new_node_acceptance_signature::SignatureView;
use crate::certificateless_qc_mdpc::utils::{
    cube_root_of, generate_hash_id_vector_correct_weight, generate_random_weight_vector,
    helper_weight, helper_weight_of, identity_vector, integer_cube_root, lemma_cube_root_unique,
    multiply_2_matrix_first_line_vector, try_invert_matrix_vector, upper_half_odd,
};
use crate::certificateless_qc_mdpc::witness_signing_pub_key::WitnessView;
use crate::error::GenerationError;
use crate::grid::{
    circ, circulant, hcat, identity, is_invertible, product, row_grid, selected_columns, top_left,
    transpose, Grid,
};
use crate::math::{
    binom, binomial, combination_at, lemma_binomial_positive, lemma_combination_shape,
    nth_combination, CombinationError,
};
use crate::polynomial::{
    convolve, cyclic_inverse, has_cyclic_inverse, lemma_cyclic_inverse_iff_invertible,
};
use num_bigint::BigUint;
use rand_chacha::ChaCha20Rng;
use vstd::arithmetic::div_mod::lemma_fundamental_div_mod;
use vstd::prelude::*;

verus! {

/// The dimensions of the one-time signature scheme and the interval in
/// which the weight of an acceptable signature lies.
#[derive(Debug, Clone, Copy, PartialEq, Eq, Structural)]
pub struct SignatureParameters {
    /// Dimension of the secret generator.
    pub k: usize,
    /// Length of the public parity-check matrix.
    pub n: usize,
    /// Length of the secret generator.
    pub n_prime: usize,
    /// Dimension of the public parity-check matrix.
    pub r: usize,
    /// Least weight of an acceptable signature.
    pub weight_low: usize,
    /// Greatest weight of an acceptable signature.
    pub weight_high: usize,
}

impl SignatureParameters {
    /// Whether the dimensions go together with circulant blocks of `p`
    /// bits: the secret generator `[I | B]` has room for a block `B` at
    /// least as wide as `I`, the secret columns are among the public ones,
    /// and the public parity-check matrix can be cut out of a `p` by `p`
    /// block.
    pub open spec fn fits(self, p: nat) -> bool {
        &&& 1 <= self.k
        &&& 2 * self.k <= self.n_prime
        &&& self.n_prime <= self.n
        &&& self.r <= self.n
        &&& self.r <= p
        &&& self.n - self.r <= p
    }

    /// Whether the dimensions go together with blocks of `p` bits.
    pub fn fits_block_size(&self, p: usize) -> (b: bool)
        ensures
            b == self.fits(p as nat),
    {
        1 <= self.k && self.k <= self.n_prime / 2 && self.n_prime <= self.n && self.r <= self.n
            && self.r <= p && self.n - self.r <= p
    }

    /// The dimensions that belong to blocks of `crate::P` bits.
    pub fn standard() -> (parameters: Self)
        ensures
            parameters == (SignatureParameters {
                k: crate::SIG_K,
                n: crate::SIG_N,
                n_prime: crate::SIG_N_PRIME,
                r: crate::SIG_R,
                weight_low: crate::SIGNATURE_WEIGHT_INTERVAL_LOW,
                weight_high: crate::SIGNATURE_WEIGHT_INTERVAL_HIGH,
            }),
    {
        SignatureParameters {
            k: crate::SIG_K,
            n: crate::SIG_N,
            n_prime: crate::SIG_N_PRIME,
            r: crate::SIG_R,
            weight_low: crate::SIGNATURE_WEIGHT_INTERVAL_LOW,
            weight_high: crate::SIGNATURE_WEIGHT_INTERVAL_HIGH,
        }
    }
}

/// The weight of the third helper vector of a code of row weight `w`: half
/// of `w`.  The weight is a security parameter of the scheme.
pub open spec fn third_helper_weight_of(w: nat) -> nat {
    w / 2
}

/// The weight of the third helper vector of a code of row weight `w`.
pub fn third_helper_weight(w: usize) -> (r: usize)
    ensures
        r == third_helper_weight_of(w as nat),
{
    w / 2
}

/// Whether a node with blocks of `p` bits and row weight `w` can be derived
/// with the signature dimensions `parameters`: the dimensions fit the block
/// size, a word of `2 * p` bits can be counted, and the third helper vector
/// has room for its weight.
pub open spec fn admits(parameters: SignatureParameters, p: nat, w: nat) -> bool {
    &&& parameters.fits(p)
    &&& 2 * p <= usize::MAX
    &&& third_helper_weight_of(w) <= p
}

/// Whether `generator` is a secret generator of the signature scheme made
/// of the vectors `a` and `b`: the product `A * [I | B]` of the circulant
/// matrix `A` of `a`, invertible and of weight the cube root of `k`, with
/// the identity beside the `k` first rows `B` of the circulant matrix of
/// `b`, of weight `k`.
pub open spec fn is_secret_generator(
    generator: Grid,
    a: Seq<bool>,
    b: Seq<bool>,
    parameters: SignatureParameters,
) -> bool {
    &&& a.len() == parameters.k
    &&& b.len() == parameters.n_prime - parameters.k
    &&& weight(a) == cube_root_of(parameters.k as nat)
    &&& weight(b) == parameters.k
    &&& is_invertible(circ(a))
    &&& generator == product(
        circ(a),
        hcat(
            identity(parameters.k as nat),
            circulant(b, parameters.k as nat, (parameters.n_prime - parameters.k) as nat, 1),
        ),
    )
}

/// Whether `indices` lists `c`.
pub open spec fn holds(indices: Seq<int>, c: int) -> bool {
    exists|pos: int| 0 <= pos < indices.len() && indices[pos] == c
}

/// A place at which `indices` lists `c`.
pub open spec fn position_of(indices: Seq<int>, c: int) -> int {
    choose|pos: int| 0 <= pos < indices.len() && indices[pos] == c
}

/// Whether the entries of `s` increase strictly.
pub open spec fn increasing(s: Seq<int>) -> bool {
    forall|i: int, j: int| 0 <= i < j < s.len() ==> s[i] < s[j]
}

/// The grid of `n` columns that holds column `pos` of `g` in its column
/// `indices[pos]` and zeros in the columns that `indices` does not list.
pub open spec fn scattered(g: Grid, indices: Seq<int>, n: nat) -> Grid {
    Grid::build(
        g.height(),
        n,
        |i: int, c: int| holds(indices, c) && g.at(i, position_of(indices, c)),
    )
}

/// The entries of a list of machine words as integers.
pub open spec fn as_ints(v: Seq<usize>) -> Seq<int> {
    v.map_values(|x: usize| x as int)
}

/// The secret vector of `p` bits and weight `weight` that a recovered
/// secret number `index` stands for: the number is reduced modulo the
/// number of such vectors, and the bits set are those of the combination at
/// that place.  No vector of `p` bits has a weight above `p`.
pub fn secret_vector_from_index(p: usize, weight: usize, index: BigUint) -> (r: Result<
    Vec<bool>,
    CombinationError,
>)
    ensures
        r is Ok <==> weight <= p,
        r matches Err(e) ==> e == CombinationError::SubsetTooLarge,
        r matches Ok(v) ==> v@.len() == p && crate::bits::weight(v@) == weight && forall|i: int|
            0 <= i < p ==> #[trigger] v@[i] == holds(
                combination_at(
                    p as nat,
                    weight as nat,
                    biguint_value(index) % binomial(p as nat, weight as nat),
                ),
                i,
            ),
{
    if weight > p {
        return Err(CombinationError::SubsetTooLarge);
    }
    let total = binom(p, weight);
    proof {
        lemma_binomial_positive(p as nat, weight as nat);
    }
    let ghost x = biguint_value(index) as int;
    let ghost d = binomial(p as nat, weight as nat) as int;
    let quotient = biguint_div(&index, &total);
    let whole = biguint_mul(&quotient, &total);
    proof {
        lemma_fundamental_div_mod(x, d);
        assert((x / d) * d == d * (x / d)) by (nonlinear_arith);
        assert(0 <= x % d < d) by (nonlinear_arith)
            requires
                d > 0,
        ;
    }
    let reduced = biguint_sub(&index, &whole);
    let ghost place = biguint_value(reduced);
    assert(place == x % d);
    let support = match nth_combination(p, weight, reduced) {
        Ok(c) => c,
        Err(_) => vstd::pervasive::unreached(),
    };
    let ghost target = combination_at(p as nat, weight as nat, place);
    proof {
        lemma_combination_shape(0, p as nat, weight as nat, place);
    }
    let mut s_i: Vec<bool> = vec![false; p];
    let mut q: usize = 0;
    while q < weight
        invariant
            q <= weight,
            support@.len() == weight,
            target.len() == weight,
            s_i@.len() == p,
            forall|j: int| 0 <= j < weight ==> #[trigger] support@[j] == target[j],
            forall|j: int| 0 <= j < weight ==> #[trigger] support@[j] < p,
            forall|i: int|
                0 <= i < p ==> #[trigger] s_i@[i] == (exists|j: int|
                    0 <= j < q && #[trigger] target[j] == i),
        decreases weight - q,
    {
        let index_to_set = support[q];
        let ghost before = s_i@;
        s_i[index_to_set] = true;
        proof {
            assert(target[q as int] == index_to_set);
            assert forall|i: int| 0 <= i < p implies #[trigger] s_i@[i] == (exists|j: int|
                0 <= j < q + 1 && #[trigger] target[j] == i) by {
                if i == index_to_set {
                    assert(target[q as int] == i);
                } else {
                    assert(s_i@[i] == before[i]);
                    if before[i] {
                        let j = choose|j: int| 0 <= j < q && #[trigger] target[j] == i;
                        assert(0 <= j < q + 1 && target[j] == i);
                    }
                    if exists|j: int| 0 <= j < q + 1 && #[trigger] target[j] == i {
                        let j = choose|j: int| 0 <= j < q + 1 && #[trigger] target[j] == i;
                        assert(j != q);
                        assert(0 <= j < q && target[j] == i);
                    }
                }
            }
        }
        q = q + 1;
    }
    proof {
        assert forall|i: int| 0 <= i < p implies #[trigger] s_i@[i] == holds(target, i) by {
            if s_i@[i] {
                let j = choose|j: int| 0 <= j < weight && #[trigger] target[j] == i;
                assert(0 <= j < target.len() && target[j] == i);
            }
            if holds(target, i) {
                let j = choose|j: int| 0 <= j < target.len() && target[j] == i;
                assert(0 <= j < weight && target[j] == i);
            }
        }
        assert forall|c: int| 0 <= c < p implies (#[trigger] s_i@[c] <==> exists|q: int|
            0 <= q < target.len() && #[trigger] target[q] == c) by {
            assert(s_i@[c] == holds(target, c));
        }
        lemma_count_ones_listed(s_i@, target, p as int, weight as int);
    }
    Ok(s_i)
}

/// What a node holds.
pub struct NodeView {
    pub node_id: nat,
    pub p: nat,
    pub t: nat,
    pub w: nat,
    pub secret_vector: Seq<bool>,
    pub h_i_1: Seq<bool>,
    pub h_i_2: Seq<bool>,
    pub h_i_3: Seq<bool>,
    pub sig_sk_generator: Grid,
    pub sig_j: Seq<int>,
    pub parameters: SignatureParameters,
}

impl NodeView {
    /// The vectors have `p` bits; the secret vector and the first two
    /// helper vectors are invertible modulo `x^p + 1`; the first helper
    /// vector is the one bound to the identity; the secret generator and
    /// the secret columns have the dimensions of the parameters.
    pub open spec fn valid(self) -> bool {
        &&& 2 * self.p <= usize::MAX
        &&& self.secret_vector.len() == self.p
        &&& self.h_i_1.len() == self.p
        &&& self.h_i_2.len() == self.p
        &&& self.h_i_3.len() == self.p
        &&& has_cyclic_inverse(self.secret_vector)
        &&& has_cyclic_inverse(self.h_i_1)
        &&& has_cyclic_inverse(self.h_i_2)
        &&& identity_vector(self.node_id, self.p, helper_weight_of(self.w)) == Some(self.h_i_1)
        &&& self.parameters.fits(self.p)
        &&& self.sig_sk_generator.has_shape(
            self.parameters.k as nat,
            self.parameters.n_prime as nat,
        )
        &&& self.sig_j.len() == self.parameters.n_prime
        &&& increasing(self.sig_j)
        &&& forall|c: int|
            0 <= c < self.sig_j.len() ==> 0 <= #[trigger] self.sig_j[c] < self.parameters.n
    }

    /// The witness vector `h_i_2^-1 * h_i_3`.
    pub open spec fn witness_vector(self) -> Seq<bool> {
        convolve(cyclic_inverse(self.h_i_2), self.h_i_3)
    }

    /// The first row `s_i^-1 * h_i_1^-1 * h_i_2^-1 * h_i_3` of the
    /// redundancy block.
    pub open spec fn redundancy(self) -> Seq<bool> {
        convolve(
            convolve(
                convolve(cyclic_inverse(self.secret_vector), cyclic_inverse(self.h_i_1)),
                cyclic_inverse(self.h_i_2),
            ),
            self.h_i_3,
        )
    }

    /// The public generator matrix.
    pub open spec fn generator(self) -> Grid {
        systematic_generator(self.redundancy())
    }

    /// The private parity-check matrix
    /// `[circ(h_i_3) | circ(h_i_2 * h_i_1 * s_i)]`.
    pub open spec fn parity_check(self) -> Grid {
        hcat(
            circ(self.h_i_3),
            circ(convolve(convolve(self.h_i_2, self.h_i_1), self.secret_vector)),
        )
    }

    /// The public parity matrix of the signature scheme: the identity
    /// beside the top left corner of the circulant matrix of the witness
    /// vector.
    pub open spec fn signature_parity(self) -> Grid {
        hcat(
            identity(self.parameters.r as nat),
            top_left(
                circ(self.witness_vector()),
                self.parameters.r as nat,
                (self.parameters.n - self.parameters.r) as nat,
            ),
        )
    }

    /// The public multiplication matrix of the signature scheme: the
    /// secret columns of the parity matrix times the transposed secret
    /// generator.
    pub open spec fn signature_multiplication(self) -> Grid {
        product(
            selected_columns(self.signature_parity(), self.sig_j),
            transpose(self.sig_sk_generator),
        )
    }

    /// The witness that the node publishes.
    pub open spec fn witness(self) -> WitnessView {
        WitnessView {
            pubkey_witness_vector: self.witness_vector(),
            signature_parity_matrix: self.signature_parity(),
            signature_multiplication_matrix: self.signature_multiplication(),
        }
    }

    /// The secret generator spread over the public columns.
    pub open spec fn scattered_generator(self) -> Grid {
        scattered(self.sig_sk_generator, self.sig_j, self.parameters.n as nat)
    }

    /// The signature of the hash-bound vector `h`.
    pub open spec fn signature_for(self, h: Seq<bool>) -> Seq<bool> {
        product(row_grid(h), self.scattered_generator()).rows[0]
    }
}

/// A node: its secret vector, its helper vectors and its one-time
/// signature key.
#[derive(Debug)]
pub struct CertificatelessQcMdpc {
    p: usize,
    t: usize,
    n: usize,
    w: usize,
    secret_vector: Vec<bool>,
    h_i_1: Vec<bool>,
    h_i_2: Vec<bool>,
    h_i_3: Vec<bool>,
    node_id: usize,
    sig_sk_generator: BitMatrix,
    sig_j: Vec<usize>,
    parameters: SignatureParameters,
}

impl View for CertificatelessQcMdpc {
    type V = NodeView;

    closed spec fn view(&self) -> NodeView {
        NodeView {
            node_id: self.node_id as nat,
            p: self.p as nat,
            t: self.t as nat,
            w: self.w as nat,
            secret_vector: self.secret_vector@,
            h_i_1: self.h_i_1@,
            h_i_2: self.h_i_2@,
            h_i_3: self.h_i_3@,
            sig_sk_generator: self.sig_sk_generator@,
            sig_j: as_ints(self.sig_j@),
            parameters: self.parameters,
        }
    }
}

impl Clone for CertificatelessQcMdpc {
    fn clone(&self) -> (r: Self)
        ensures
            r@ == self@,
    {
        proof {
            use_type_invariant(self);
        }
        let secret_vector = self.secret_vector.clone();
        let h_i_1 = self.h_i_1.clone();
        let h_i_2 = self.h_i_2.clone();
        let h_i_3 = self.h_i_3.clone();
        let sig_j = self.sig_j.clone();
        assert(secret_vector@ =~= self.secret_vector@);
        assert(h_i_1@ =~= self.h_i_1@);
        assert(h_i_2@ =~= self.h_i_2@);
        assert(h_i_3@ =~= self.h_i_3@);
        assert(sig_j@ =~= self.sig_j@);
        CertificatelessQcMdpc {
            p: self.p,
            t: self.t,
            n: self.n,
            w: self.w,
            secret_vector,
            h_i_1,
            h_i_2,
            h_i_3,
            node_id: self.node_id,
            sig_sk_generator: self.sig_sk_generator.clone(),
            sig_j,
            parameters: self.parameters,
        }
    }
}

impl CertificatelessQcMdpc {
    #[verifier::type_invariant]
    spec fn well_formed(&self) -> bool {
        self@.valid() && self.n == 2 * self.p
    }

    /// Derives the key material of the node `id` from its secret vector
    /// `si` of `p` bits, whose circulant matrix must be invertible.  The
    /// first helper vector is bound to `id` by hashing; the second and the
    /// third, the secret generator of the signature scheme and its secret
    /// columns are drawn from `rng`.  Parameters that admit no node, an
    /// identity whose hash is too thin and an identity whose vector is
    /// singular are each reported as such and for no other cause; on all
    /// other inputs the draws decide between a node and exhausted attempts.
    pub fn init(
        id: usize,
        p: usize,
        w: usize,
        t: usize,
        si: &[bool],
        parameters: SignatureParameters,
        rng: &mut ChaCha20Rng,
    ) -> (r: Result<Self, GenerationError>)
        requires
            si@.len() == p,
            is_invertible(circ(si@)),
        ensures
            r matches Ok(node) ==> {
                &&& node@.valid()
                &&& node@.node_id == id
                &&& node@.p == p
                &&& node@.w == w
                &&& node@.t == t
                &&& node@.secret_vector == si@
                &&& node@.parameters == parameters
                &&& weight(node@.h_i_2) == helper_weight_of(w as nat)
                &&& upper_half_odd(node@.h_i_2)
                &&& weight(node@.h_i_3) == third_helper_weight_of(w as nat)
                &&& exists|a: Seq<bool>, b: Seq<bool>|
                    is_secret_generator(node@.sig_sk_generator, a, b, parameters)
                &&& exists|index: nat|
                    index < binomial(parameters.n as nat, parameters.n_prime as nat)
                        && #[trigger] combination_at(
                        parameters.n as nat,
                        parameters.n_prime as nat,
                        index,
                    ) == node@.sig_j
            },
            r == Err::<Self, GenerationError>(GenerationError::InvalidParameters) <==> !admits(
                parameters,
                p as nat,
                w as nat,
            ),
            r == Err::<Self, GenerationError>(GenerationError::InsufficientHashDensity) <==> admits(
                parameters,
                p as nat,
                w as nat,
            ) && identity_vector(id as nat, p as nat, helper_weight_of(w as nat)) is None,
            r == Err::<Self, GenerationError>(GenerationError::SingularIdentityVector) <==> admits(
                parameters,
                p as nat,
                w as nat,
            ) && (identity_vector(id as nat, p as nat, helper_weight_of(w as nat)) matches Some(h)
                && !has_cyclic_inverse(h)),
    {
        if !parameters.fits_block_size(p) || p > usize::MAX / 2 || third_helper_weight(w) > p {
            return Err(GenerationError::InvalidParameters);
        }
        proof {
            lemma_cyclic_inverse_iff_invertible(si@);
        }
        let helper = helper_weight(w);
        let h_i_1 = match generate_hash_id_vector_correct_weight(id, p, helper) {
            Ok(v) => v,
            Err(_) => {
                return Err(GenerationError::InsufficientHashDensity);
            },
        };
        if try_invert_matrix_vector(h_i_1.as_slice()).is_none() {
            return Err(GenerationError::SingularIdentityVector);
        }
        proof {
            // a vector of p bits has at most p set bits
            lemma_count_ones_bound(h_i_1@, p as int);
        }
        let h_i_2 = match generate_random_weight_vector_to_invertible_matrix(p, helper, rng) {
            Ok(v) => v,
            Err(e) => {
                assert(e == GenerationError::AttemptsExhausted);
                return Err(e);
            },
        };
        let h_i_3 = match generate_random_weight_vector(p, third_helper_weight(w), rng) {
            Ok(v) => v,
            Err(e) => {
                assert(e == GenerationError::AttemptsExhausted);
                return Err(e);
            },
        };
        let k = parameters.k;
        let root = integer_cube_root(k);
        proof {
            lemma_cube_root_unique(root as nat, cube_root_of(k as nat), k as nat);
            // the cube root of a number from 1 on is no larger than the number
            if root > k {
                assert(root * root * root > k) by (nonlinear_arith)
                    requires
                        root > k,
                        k >= 1,
                ;
            }
        }
        let a = match generate_random_weight_vector_to_invertible_matrix(k, root, rng) {
            Ok(v) => v,
            Err(e) => {
                assert(e == GenerationError::AttemptsExhausted);
                return Err(e);
            },
        };
        let sig_a = make_circulant_matrix(a.as_slice(), k, k, 1);
        let mut sig_g = make_identity_matrix(k);
        let b = match generate_random_weight_vector(parameters.n_prime - k, k, rng) {
            Ok(v) => v,
            Err(e) => {
                assert(e == GenerationError::AttemptsExhausted);
                return Err(e);
            },
        };
        let block = make_circulant_matrix(b.as_slice(), k, parameters.n_prime - k, 1);
        let joined = concat_horizontally_mat(&mut sig_g, &block);
        assert(joined is Ok);
        let sig_sk_generator = expect_matrix(sig_a.multiply(&sig_g));
        let bound = binom(parameters.n, parameters.n_prime);
        proof {
            lemma_binomial_positive(parameters.n as nat, parameters.n_prime as nat);
        }
        let j_comb_index = random_biguint_below(rng, &bound);
        let ghost place = biguint_value(j_comb_index);
        let sig_j = match nth_combination(parameters.n, parameters.n_prime, j_comb_index) {
            Ok(c) => c,
            Err(_) => vstd::pervasive::unreached(),
        };
        let secret_vector = vstd::slice::slice_to_vec(si);
        proof {
            let ints = as_ints(sig_j@);
            assert(ints.len() == parameters.n_prime);
            assert forall|i: int, j: int| 0 <= i < j < ints.len() implies ints[i] < ints[j] by {
                assert(sig_j@[i] < sig_j@[j]);
            }
            assert forall|c: int| 0 <= c < ints.len() implies 0 <= #[trigger] ints[c]
                < parameters.n by {
                assert(sig_j@[c] < parameters.n);
            }
            assert(sig_sk_generator@.has_shape(k as nat, parameters.n_prime as nat));
            assert(is_secret_generator(sig_sk_generator@, a@, b@, parameters));
            assert(ints =~= combination_at(
                parameters.n as nat,
                parameters.n_prime as nat,
                place,
            ));
            assert(has_cyclic_inverse(h_i_1@));
            assert(has_cyclic_inverse(h_i_2@));
            assert(has_cyclic_inverse(secret_vector@));
        }
        let node = CertificatelessQcMdpc {
            p,
            t,
            n: p * 2,
            w,
            secret_vector,
            h_i_1,
            h_i_2,
            h_i_3,
            node_id: id,
            sig_sk_generator,
            sig_j,
            parameters,
        };
        Ok(node)
    }

    /// The public key of the node and the witness that goes with it.
    pub fn public_key_and_witness(&self) -> (r: (
        CertificatelessQcMdpcPublicKey,
        NodeWitnessSigPubKey,
    ))
        ensures
            r.0@ == (PublicKeyView {
                generator_matrix: self@.generator(),
                max_message_size_bits: self@.p,
                errors_count: self@.t,
            }),
            r.1@ == self@.witness(),
    {
        proof {
            use_type_invariant(self);
        }
        let p = self.p;
        let h_i_1_inv = match try_invert_matrix_vector(self.h_i_1.as_slice()) {
            Some(v) => v,
            None => vstd::pervasive::unreached(),
        };
        let h_i_2_inv = match try_invert_matrix_vector(self.h_i_2.as_slice()) {
            Some(v) => v,
            None => vstd::pervasive::unreached(),
        };
        let s_i_inv = match try_invert_matrix_vector(self.secret_vector.as_slice()) {
            Some(v) => v,
            None => vstd::pervasive::unreached(),
        };
        let r_i = multiply_2_matrix_first_line_vector(h_i_2_inv.as_slice(), self.h_i_3.as_slice());
        let witness_block = make_circulant_matrix(r_i.as_slice(), p, p, 1);
        let both = multiply_2_matrix_first_line_vector(s_i_inv.as_slice(), h_i_1_inv.as_slice());
        let three = multiply_2_matrix_first_line_vector(both.as_slice(), h_i_2_inv.as_slice());
        let redundancy = multiply_2_matrix_first_line_vector(
            three.as_slice(),
            self.h_i_3.as_slice(),
        );
        let redundancy_block = make_circulant_matrix(redundancy.as_slice(), p, p, 1);
        let right_part_generator = redundancy_block.transposed();
        let mut generator = make_identity_matrix(p);
        let joined = concat_horizontally_mat(&mut generator, &right_part_generator);
        assert(joined is Ok);

        let sig_r = self.parameters.r;
        let mut signature_parity_matrix = make_identity_matrix(sig_r);
        let truncated = witness_block.submatrix(sig_r, self.parameters.n - sig_r);
        let joined = concat_horizontally_mat(&mut signature_parity_matrix, &truncated);
        assert(joined is Ok);
        proof {
            assert forall|c: int| 0 <= c < self.sig_j@.len() implies #[trigger] self.sig_j@[c]
                < signature_parity_matrix@.width by {
                assert(as_ints(self.sig_j@)[c] < self.parameters.n);
            }
        }
        let selected = signature_parity_matrix.select_columns(&self.sig_j);
        let signature_multiplication_matrix = expect_matrix(
            selected.multiply(&self.sig_sk_generator.transposed()),
        );
        (
            CertificatelessQcMdpcPublicKey::from_parts(generator, p, self.t),
            NodeWitnessSigPubKey {
                pubkey_witness_vector: r_i,
                signature_parity_matrix,
                signature_multiplication_matrix,
            },
        )
    }

    /// The private key of the node.
    pub fn private_key(&self) -> (key: CertificatelessQcMdpcPrivateKey)
        ensures
            key@ == (PrivateKeyView {
                parity_check_matrix: self@.parity_check(),
                expected_encoded_vector_size: 2 * self@.p,
            }),
    {
        proof {
            use_type_invariant(self);
        }
        let p = self.p;
        let mut parity_check_matrix = make_circulant_matrix(self.h_i_3.as_slice(), p, p, 1);
        let both = multiply_2_matrix_first_line_vector(
            self.h_i_2.as_slice(),
            self.h_i_1.as_slice(),
        );
        let three = multiply_2_matrix_first_line_vector(
            both.as_slice(),
            self.secret_vector.as_slice(),
        );
        let right_part_parity_check = make_circulant_matrix(three.as_slice(), p, p, 1);
        let joined = concat_horizontally_mat(&mut parity_check_matrix, &right_part_parity_check);
        assert(joined is Ok);
        let _ = parity_check_matrix.nrows();
        CertificatelessQcMdpcPrivateKey::from_parts(parity_check_matrix)
    }

    /// The signature by which this node accepts the candidate
    /// `new_node_id`: the candidate's hash-bound vector times the secret
    /// generator spread over the public columns.  A secret generator should
    /// sign few candidates, as every signature tells something of it.
    pub fn accept_new_node(&self, new_node_id: usize) -> (r: Result<
        NewNodeAcceptanceSignature,
        GenerationError,
    >)
        ensures
            match identity_vector(
                new_node_id as nat,
                self@.parameters.k as nat,
                (self@.parameters.k / 2) as nat,
            ) {
                Some(h) => r is Ok && r.unwrap()@ == (SignatureView {
                    signing_node_id: self@.node_id,
                    signature: self@.signature_for(h),
                }),
                None => r is Err && r.unwrap_err() == GenerationError::InsufficientHashDensity,
            },
    {
        proof {
            use_type_invariant(self);
        }
        let k = self.parameters.k;
        let n = self.parameters.n;
        let n_prime = self.parameters.n_prime;
        let h_other_1 = match generate_hash_id_vector_correct_weight(new_node_id, k, k / 2) {
            Ok(v) => v,
            Err(e) => {
                return Err(e);
            },
        };
        let ghost indices = as_ints(self.sig_j@);
        let ghost gen = self.sig_sk_generator@;
        let mut rows: Vec<Vec<bool>> = Vec::new();
        let mut row: usize = 0;
        while row < k
            invariant
                row <= k,
                k == self.parameters.k,
                n == self.parameters.n,
                n_prime == self.parameters.n_prime,
                self@.valid(),
                indices == as_ints(self.sig_j@),
                gen == self.sig_sk_generator@,
                rows.len() == row,
                rect(rows@, n as nat),
                forall|i: int, c: int|
                    0 <= i < row && 0 <= c < n ==> #[trigger] rows[i]@[c] == (holds(indices, c)
                        && gen.at(i, position_of(indices, c))),
            decreases k - row,
        {
            let mut line: Vec<bool> = vec![false; n];
            let mut pos: usize = 0;
            while pos < n_prime
                invariant
                    pos <= n_prime,
                    row < k,
                    k == self.parameters.k,
                    n == self.parameters.n,
                    n_prime == self.parameters.n_prime,
                    self@.valid(),
                    indices == as_ints(self.sig_j@),
                    gen == self.sig_sk_generator@,
                    line.len() == n,
                    forall|q: int|
                        0 <= q < pos ==> line@[#[trigger] indices[q]] == gen.at(row as int, q),
                    forall|c: int|
                        0 <= c < n && (forall|q: int| 0 <= q < pos ==> #[trigger] indices[q] != c)
                            ==> !#[trigger] line@[c],
                decreases n_prime - pos,
            {
                let col = self.sig_j[pos];
                let bit = self.sig_sk_generator.get(row, pos);
                proof {
                    assert(indices[pos as int] == col);
                    assert(0 <= indices[pos as int] < n);
                    assert forall|q: int| 0 <= q < pos implies #[trigger] indices[q] != col by {
                        assert(indices[q] < indices[pos as int]);
                    }
                }
                line[col] = bit;
                pos = pos + 1;
            }
            proof {
                assert forall|c: int| 0 <= c < n implies #[trigger] line@[c] == (holds(indices, c)
                    && gen.at(row as int, position_of(indices, c))) by {
                    if holds(indices, c) {
                        let q = position_of(indices, c);
                        assert(line@[indices[q]] == gen.at(row as int, q));
                    } else {
                        assert forall|q: int| 0 <= q < n_prime implies #[trigger] indices[q]
                            != c by {}
                    }
                }
            }
            rows.push(line);
            row = row + 1;
        }
        proof {
            crate::binary_matrix_operations::lemma_grid_of_build(
                rows@,
                k as nat,
                n as nat,
                |i: int, c: int| holds(indices, c) && gen.at(i, position_of(indices, c)),
            );
        }
        let generator_star = BitMatrix::from_parts(rows, n);
        let hash_row = BitMatrix::from_row_vector(&h_other_1);
        let signature = expect_matrix(hash_row.multiply(&generator_star));
        Ok(NewNodeAcceptanceSignature::from_matrix(self.node_id, signature))
    }
}

} // verus!
