//! What a node publishes beside its public key.

use crate::binary_matrix_operations::BitMatrix;
use crate::grid::Grid;
use vstd::prelude::*;

verus! {

/// The witness of a public key and the public data of the node's one-time
/// signature.
#[derive(Debug, PartialEq, Eq)]
pub struct NodeWitnessSigPubKey {
    pub pubkey_witness_vector: Vec<bool>,
    pub signature_parity_matrix: BitMatrix,
    pub signature_multiplication_matrix: BitMatrix,
}

/// What a witness holds.
pub struct WitnessView {
    pub pubkey_witness_vector: Seq<bool>,
    pub signature_parity_matrix: Grid,
    pub signature_multiplication_matrix: Grid,
}

impl View for NodeWitnessSigPubKey {
    type V = WitnessView;

    open spec fn view(&self) -> WitnessView {
        WitnessView {
            pubkey_witness_vector: self.pubkey_witness_vector@,
            signature_parity_matrix: self.signature_parity_matrix@,
            signature_multiplication_matrix: self.signature_multiplication_matrix@,
        }
    }
}

impl Clone for NodeWitnessSigPubKey {
    fn clone(&self) -> (r: Self)
        ensures
            r@ == self@,
    {
        let pubkey_witness_vector = self.pubkey_witness_vector.clone();
        assert(pubkey_witness_vector@ =~= self.pubkey_witness_vector@);
        NodeWitnessSigPubKey {
            pubkey_witness_vector,
            signature_parity_matrix: self.signature_parity_matrix.clone(),
            signature_multiplication_matrix: self.signature_multiplication_matrix.clone(),
        }
    }
}

} // verus!
