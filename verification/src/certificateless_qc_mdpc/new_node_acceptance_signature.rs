//! The one-time signature by which a node accepts a candidate, and the
//! Shamir share that it reduces to.

use crate::bignum::{bigint_add, bigint_from_usize, bigint_shift_left, bigint_value};
use crate::binary_matrix_operations::BitMatrix;
use crate::bits::{vector_weight, weight};
use crate::certificateless_qc_mdpc::utils::{
    generate_hash_id_vector_correct_weight, identity_vector,
};
use crate::certificateless_qc_mdpc::witness_signing_pub_key::{NodeWitnessSigPubKey, WitnessView};
use crate::bits::{bits_value, lemma_bits_value_bound, lemma_xor_sum_scatter, pow2};
use crate::certificateless_qc_mdpc::{
    holds, increasing, position_of, scattered, NodeView, SignatureParameters,
};
use crate::grid::{
    dot_term, lemma_grid_ext, lemma_product_assoc, lemma_transpose_product, product, row_grid,
    selected_columns, transpose, Grid,
};
use num_bigint::BigInt;
use vstd::prelude::*;

verus! {

/// A signature row together with the identity of the node that signed.
#[derive(Debug, PartialEq, Eq)]
pub struct NewNodeAcceptanceSignature {
    signing_node_id: usize,
    signature: BitMatrix,
}

/// What a signature holds.
pub struct SignatureView {
    pub signing_node_id: nat,
    pub signature: Seq<bool>,
}

impl View for NewNodeAcceptanceSignature {
    type V = SignatureView;

    closed spec fn view(&self) -> SignatureView {
        SignatureView {
            signing_node_id: self.signing_node_id as nat,
            signature: self.signature@.rows[0],
        }
    }
}

impl Clone for NewNodeAcceptanceSignature {
    fn clone(&self) -> (r: Self)
        ensures
            r@ == self@,
    {
        proof {
            use_type_invariant(self);
        }
        NewNodeAcceptanceSignature {
            signing_node_id: self.signing_node_id,
            signature: self.signature.clone(),
        }
    }
}

/// Whether a signature row is accepted for `candidate` against a signer's
/// witness: its weight lies in the interval of the parameters, and the
/// signer's multiplication matrix applied to the candidate's hash-bound
/// vector equals the signer's parity matrix applied to the signature.
pub open spec fn signature_accepted(
    signature: Seq<bool>,
    witness: WitnessView,
    candidate: nat,
    parameters: SignatureParameters,
) -> bool {
    match identity_vector(candidate, parameters.k as nat, (parameters.k / 2) as nat) {
        None => false,
        Some(h) => {
            &&& parameters.weight_low <= weight(signature) <= parameters.weight_high
            &&& witness.signature_multiplication_matrix.width == parameters.k
            &&& witness.signature_parity_matrix.width == signature.len()
            &&& product(witness.signature_multiplication_matrix, transpose(row_grid(h))) == product(
                witness.signature_parity_matrix,
                transpose(row_grid(signature)),
            )
        },
    }
}

/// Multiplying by the transpose of a generator spread over chosen columns
/// is multiplying the chosen columns by the transpose of the generator.
pub proof fn lemma_scatter_select(parity: Grid, generator: Grid, indices: Seq<int>, n: nat)
    requires
        parity.wf(),
        parity.width == n,
        generator.wf(),
        generator.width == indices.len(),
        increasing(indices),
        forall|c: int| 0 <= c < indices.len() ==> 0 <= #[trigger] indices[c] < n,
    ensures
        product(parity, transpose(scattered(generator, indices, n))) == product(
            selected_columns(parity, indices),
            transpose(generator),
        ),
{
    let spread = transpose(scattered(generator, indices, n));
    let chosen = selected_columns(parity, indices);
    let l = product(parity, spread);
    let r = product(chosen, transpose(generator));
    assert forall|i: int, q: int|
        0 <= i < parity.height() && 0 <= q < generator.height() implies #[trigger] l.at(i, q)
        == r.at(i, q) by {
        let f = dot_term(parity, spread, i, q);
        let g = dot_term(chosen, transpose(generator), i, q);
        assert forall|pos: int| 0 <= pos < indices.len() implies f(#[trigger] indices[pos]) == g(
            pos,
        ) by {
            let c = indices[pos];
            assert(holds(indices, c));
            let chosen_pos = position_of(indices, c);
            if chosen_pos < pos {
                assert(indices[chosen_pos] < indices[pos]);
            }
            if pos < chosen_pos {
                assert(indices[pos] < indices[chosen_pos]);
            }
        }
        assert forall|c: int|
            0 <= c < n && (forall|pos: int|
                0 <= pos < indices.len() ==> #[trigger] indices[pos] != c) implies !#[trigger] f(
            c,
        ) by {
            if holds(indices, c) {
                let pos = position_of(indices, c);
                assert(indices[pos] != c);
            }
        }
        assert forall|pos: int| 0 <= pos < indices.len() implies 0 <= (#[trigger] indices[pos])
            && indices[pos] < n by {}
        lemma_xor_sum_scatter(f, g, indices, n as int, indices.len() as int);
    }
    lemma_grid_ext(l, r);
}

/// A signature satisfies the check against the witness of the node that
/// made it: the multiplication matrix applied to the signed vector equals
/// the parity matrix applied to the signature.
pub proof fn law_own_signature_checks(node: NodeView, h: Seq<bool>)
    requires
        node.valid(),
        h.len() == node.parameters.k,
    ensures
        product(node.signature_multiplication(), transpose(row_grid(h))) == product(
            node.signature_parity(),
            transpose(row_grid(node.signature_for(h))),
        ),
{
    let spread = node.scattered_generator();
    let signed = product(row_grid(h), spread);
    assert(signed.rows =~= row_grid(node.signature_for(h)).rows);
    assert(signed == row_grid(node.signature_for(h)));
    // parity * (h * spread)^T = (parity * spread^T) * h^T
    lemma_transpose_product(row_grid(h), spread);
    lemma_product_assoc(node.signature_parity(), transpose(spread), transpose(row_grid(h)));
    lemma_scatter_select(
        node.signature_parity(),
        node.sig_sk_generator,
        node.sig_j,
        node.parameters.n as nat,
    );
}

/// The signature by which a node accepts a candidate is accepted against
/// the node's own witness for that candidate, provided that its weight
/// lies in the interval of the parameters.
pub proof fn law_own_signature_is_accepted(node: NodeView, candidate: nat)
    requires
        node.valid(),
        identity_vector(candidate, node.parameters.k as nat, (node.parameters.k / 2) as nat)
            is Some,
        node.parameters.weight_low <= weight(
            node.signature_for(
                identity_vector(
                    candidate,
                    node.parameters.k as nat,
                    (node.parameters.k / 2) as nat,
                ).unwrap(),
            ),
        ) <= node.parameters.weight_high,
    ensures
        signature_accepted(
            node.signature_for(
                identity_vector(
                    candidate,
                    node.parameters.k as nat,
                    (node.parameters.k / 2) as nat,
                ).unwrap(),
            ),
            node.witness(),
            candidate,
            node.parameters,
        ),
{
    let h = identity_vector(
        candidate,
        node.parameters.k as nat,
        (node.parameters.k / 2) as nat,
    ).unwrap();
    law_own_signature_checks(node, h);
}

/// A signature that is accepted for one candidate is refused for every
/// other candidate whose hash-bound vector is missing or is sent elsewhere
/// by the signer's multiplication matrix.
pub proof fn law_other_candidate_is_refused(
    signature: Seq<bool>,
    witness: WitnessView,
    candidate: nat,
    other: nat,
    parameters: SignatureParameters,
)
    requires
        signature_accepted(signature, witness, candidate, parameters),
        identity_vector(other, parameters.k as nat, (parameters.k / 2) as nat) matches Some(h2)
            ==> product(witness.signature_multiplication_matrix, transpose(row_grid(h2)))
            != product(
            witness.signature_multiplication_matrix,
            transpose(
                row_grid(
                    identity_vector(
                        candidate,
                        parameters.k as nat,
                        (parameters.k / 2) as nat,
                    ).unwrap(),
                ),
            ),
        ),
    ensures
        !signature_accepted(signature, witness, other, parameters),
{
}

impl NewNodeAcceptanceSignature {
    #[verifier::type_invariant]
    spec fn well_formed(&self) -> bool {
        self.signature@.wf() && self.signature@.height() == 1
    }

    /// The signature with row `signature` made by the node `signing_node_id`.
    pub fn new(signing_node_id: usize, signature: &Vec<bool>) -> (s: Self)
        ensures
            s@ == (SignatureView {
                signing_node_id: signing_node_id as nat,
                signature: signature@,
            }),
    {
        NewNodeAcceptanceSignature {
            signing_node_id,
            signature: BitMatrix::from_row_vector(signature),
        }
    }

    /// The signature with the one-row matrix `signature` made by the node
    /// `signing_node_id`.
    pub(crate) fn from_matrix(signing_node_id: usize, signature: BitMatrix) -> (s: Self)
        requires
            signature@.wf(),
            signature@.height() == 1,
        ensures
            s@ == (SignatureView {
                signing_node_id: signing_node_id as nat,
                signature: signature@.rows[0],
            }),
    {
        NewNodeAcceptanceSignature { signing_node_id, signature }
    }

    /// The identity of the node that signed.
    pub fn signing_node_id(&self) -> (id: usize)
        ensures
            id == self@.signing_node_id,
    {
        self.signing_node_id
    }

    /// The signature row.
    pub fn signature(&self) -> (row: Vec<bool>)
        ensures
            row@ == self@.signature,
    {
        proof {
            use_type_invariant(self);
        }
        self.signature.row(0)
    }

    /// Whether this signature accepts the candidate `new_node_id` when held
    /// against the witness of the node that signed.
    pub fn is_valid(
        &self,
        signer_node_witness: &NodeWitnessSigPubKey,
        new_node_id: usize,
        parameters: &SignatureParameters,
    ) -> (b: bool)
        ensures
            b == signature_accepted(
                self@.signature,
                signer_node_witness@,
                new_node_id as nat,
                *parameters,
            ),
    {
        proof {
            use_type_invariant(self);
        }
        let h_other_1 = match generate_hash_id_vector_correct_weight(
            new_node_id,
            parameters.k,
            parameters.k / 2,
        ) {
            Ok(v) => v,
            Err(_) => {
                return false;
            },
        };
        let row = self.signature.row(0);
        let signature_weight = vector_weight(&row);
        if signature_weight < parameters.weight_low || signature_weight > parameters.weight_high {
            return false;
        }
        let hash_column = BitMatrix::from_row_vector(&h_other_1).transposed();
        let signature_column = self.signature.transposed();
        proof {
            assert(self.signature@.rows =~= row_grid(self@.signature).rows);
        }
        let multiplication = &signer_node_witness.signature_multiplication_matrix;
        let left = match multiplication.multiply(&hash_column) {
            Ok(m) => m,
            Err(_) => {
                return false;
            },
        };
        let right = match signer_node_witness.signature_parity_matrix.multiply(&signature_column) {
            Ok(m) => m,
            Err(_) => {
                return false;
            },
        };
        left.equals(&right)
    }

    /// The Shamir share that the signature stands for: the signer's
    /// identity as the point, and as the value the number whose binary
    /// digits are the bits of the signature, first bit lowest.
    pub fn to_shamir_share(&self) -> (share: (usize, BigInt))
        ensures
            share.0 == self@.signing_node_id,
            bigint_value(share.1) == bits_value(self@.signature, self@.signature.len() as int),
            0 <= bigint_value(share.1) < pow2(self@.signature.len()),
    {
        proof {
            use_type_invariant(self);
        }
        let row = self.signature.row(0);
        let n = row.len();
        let one = bigint_from_usize(1);
        let mut share_eval = bigint_from_usize(0);
        let mut pos_counter: usize = 0;
        while pos_counter < n
            invariant
                pos_counter <= n,
                n == row@.len(),
                bigint_value(one) == 1,
                bigint_value(share_eval) == bits_value(row@, pos_counter as int),
            decreases n - pos_counter,
        {
            if row[pos_counter] {
                let power = bigint_shift_left(&one, pos_counter);
                share_eval = bigint_add(&share_eval, &power);
            }
            pos_counter = pos_counter + 1;
        }
        proof {
            lemma_bits_value_bound(row@, n as int);
        }
        (self.signing_node_id, share_eval)
    }
}

} // verus!
