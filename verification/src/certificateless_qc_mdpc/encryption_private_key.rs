//! The private key of a node: the parity checks that remove the errors
//! from a word encrypted for the node.

use crate::binary_matrix_operations::BitMatrix;
use crate::bits::{is_packing_of, pack_bits, vector_weight, weight};
use crate::certificateless_qc_mdpc::NodeView;
use crate::decoder::{bit_flip_search, error_pattern, syndrome};
use crate::elimination::xor_seq;
use crate::error::CodeError;
use crate::grid::{
    circ, column, hcat, identity, lemma_block_product, lemma_product_identity_right,
    lemma_sum_self, lemma_transpose_hcat, lemma_transpose_identity, lemma_transpose_involution,
    product, row_grid, sum, transpose, zero, Grid,
};
use crate::polynomial::{
    convolve, cyclic_inverse, lemma_circ_product, lemma_convolve_associative,
    lemma_convolve_unit, lemma_cyclic_inverse_facts,
};
use crate::qc_mdpc::{
    codeword, decode_word, decoded_word, lemma_no_errors_are_found, lemma_systematic_round_trip,
};
use vstd::prelude::*;

verus! {

/// The parity-check matrix of a node and the length of the words it takes.
#[derive(Debug, PartialEq, Eq)]
pub struct CertificatelessQcMdpcPrivateKey {
    parity_check_matrix: BitMatrix,
    expected_encoded_vector_size: usize,
}

/// What a private key holds.
pub struct PrivateKeyView {
    pub parity_check_matrix: Grid,
    pub expected_encoded_vector_size: nat,
}

impl View for CertificatelessQcMdpcPrivateKey {
    type V = PrivateKeyView;

    closed spec fn view(&self) -> PrivateKeyView {
        PrivateKeyView {
            parity_check_matrix: self.parity_check_matrix@,
            expected_encoded_vector_size: self.expected_encoded_vector_size as nat,
        }
    }
}

impl Clone for CertificatelessQcMdpcPrivateKey {
    fn clone(&self) -> (r: Self)
        ensures
            r@ == self@,
    {
        proof {
            use_type_invariant(self);
        }
        CertificatelessQcMdpcPrivateKey {
            parity_check_matrix: self.parity_check_matrix.clone(),
            expected_encoded_vector_size: self.expected_encoded_vector_size,
        }
    }
}

/// `'1'` for a set bit, `'0'` for a clear one.
pub open spec fn bit_char(b: bool) -> char {
    if b {
        '1'
    } else {
        '0'
    }
}

/// The first `rows` rows of `g` as text: one line of `'0'` and `'1'` per
/// row, each ended by a line feed.
pub open spec fn grid_text(g: Grid, rows: int) -> Seq<char>
    decreases rows,
{
    if rows <= 0 {
        Seq::empty()
    } else {
        grid_text(g, rows - 1) + g.rows[rows - 1].map_values(|b: bool| bit_char(b)) + seq!['\n']
    }
}

/// `String::push`: the text has one more character, `c`, at its end.
#[verifier::external_body]
fn push_char(text: &mut String, c: char)
    ensures
        final(text)@ == old(text)@.push(c),
{
    text.push(c)
}

/// The parity checks of a node vanish on the rows of its generator:
/// `H * G^T == 0`.
pub proof fn lemma_node_parity_annihilates_generator(node: NodeView)
    requires
        node.valid(),
    ensures
        node.parity_check().has_shape(node.p, 2 * node.p),
        node.generator() == hcat(identity(node.p), transpose(circ(node.redundancy()))),
        transpose(circ(node.redundancy())).has_shape(node.p, node.p),
        product(node.parity_check(), transpose(node.generator())) == zero(node.p, node.p),
{
    let p = node.p;
    let s = node.secret_vector;
    let (h1, h2, h3) = (node.h_i_1, node.h_i_2, node.h_i_3);
    let (a, b, c) = (cyclic_inverse(s), cyclic_inverse(h1), cyclic_inverse(h2));
    lemma_cyclic_inverse_facts(s);
    lemma_cyclic_inverse_facts(h1);
    lemma_cyclic_inverse_facts(h2);
    let y = convolve(convolve(h2, h1), s);
    let ab = convolve(a, b);
    let t = convolve(ab, c);
    let u = convolve(t, h3);
    assert(u == node.redundancy());
    // y * t = ((h2 h1) s)((a b) c) = ((h2 h1)(s (a b))) c = ((h2 h1) b) c = h2 c = 1
    lemma_convolve_associative(y, ab, c);
    lemma_convolve_associative(convolve(h2, h1), s, ab);
    lemma_convolve_associative(s, a, b);
    lemma_convolve_unit(b);
    lemma_convolve_associative(h2, h1, b);
    lemma_convolve_unit(h2);
    assert(convolve(y, t) == crate::polynomial::unit(p));
    // y * u = (y * t) * h3 = h3
    lemma_convolve_associative(y, t, h3);
    lemma_convolve_unit(h3);
    assert(convolve(y, u) == h3);
    let left = circ(h3);
    let right = circ(y);
    let x = circ(u);
    lemma_circ_product(y, u);
    // G^T = [I ; X]
    lemma_transpose_hcat(identity(p), transpose(x));
    lemma_transpose_identity(p);
    lemma_transpose_involution(x);
    // [H3 | Y] * [I ; X] = H3 + Y * X = H3 + H3 = 0
    lemma_block_product(left, right, identity(p), x);
    lemma_product_identity_right(left);
    lemma_sum_self(left);
}

/// Decrypting removes the errors that bit flipping finds.
///
/// For a node, a message of at most `p` bits and an error pattern that the
/// search finds from its own syndrome: the code word of the message under
/// the node's public generator, with the errors added, decodes under the
/// node's parity checks to the code word, and any packing of the code word
/// into bytes begins with the bytes of the message.
pub proof fn law_decrypt_removes_found_errors(
    node: NodeView,
    data: Seq<u8>,
    e: Seq<bool>,
    bytes: Seq<u8>,
)
    requires
        node.valid(),
        8 * data.len() <= node.p,
        e.len() == 2 * node.p,
        error_pattern(node.parity_check(), syndrome(node.parity_check(), e)) == Some(e),
        is_packing_of(bytes, codeword(node.generator(), data).rows[0]),
    ensures
        decoded_word(
            node.parity_check(),
            sum(codeword(node.generator(), data), row_grid(e)).rows[0],
        ) == Some(codeword(node.generator(), data).rows[0]),
        bytes.len() >= data.len(),
        bytes.subrange(0, data.len() as int) == data,
{
    lemma_node_parity_annihilates_generator(node);
    let q = transpose(circ(node.redundancy()));
    lemma_systematic_round_trip(node.parity_check(), q, data, e, bytes);
    let word = codeword(node.generator(), data);
    assert(sum(word, row_grid(e)).rows[0] =~= xor_seq(word.rows[0], e));
}

/// Encrypting without errors and then decrypting gives the message back.
///
/// For a node and a message of at most `p` bits: the code word of the
/// message decodes to itself, and any packing of it into bytes begins with
/// the bytes of the message.
pub proof fn law_decrypt_inverts_encrypt(node: NodeView, data: Seq<u8>, bytes: Seq<u8>)
    requires
        node.valid(),
        8 * data.len() <= node.p,
        is_packing_of(bytes, codeword(node.generator(), data).rows[0]),
    ensures
        decoded_word(node.parity_check(), codeword(node.generator(), data).rows[0]) == Some(
            codeword(node.generator(), data).rows[0],
        ),
        bytes.len() >= data.len(),
        bytes.subrange(0, data.len() as int) == data,
{
    let h = node.parity_check();
    lemma_node_parity_annihilates_generator(node);
    lemma_no_errors_are_found(h);
    let q = transpose(circ(node.redundancy()));
    lemma_systematic_round_trip(h, q, data, crate::decoder::zeros(h.width), bytes);
    let word = codeword(node.generator(), data).rows[0];
    assert(word.len() == h.width);
}

impl CertificatelessQcMdpcPrivateKey {
    #[verifier::type_invariant]
    spec fn well_formed(&self) -> bool {
        &&& self.parity_check_matrix@.wf()
        &&& self.parity_check_matrix@.width == self.expected_encoded_vector_size
        &&& self.parity_check_matrix@.height() >= 1
    }

    /// A key from its parity-check matrix.
    pub(crate) fn from_parts(parity_check_matrix: BitMatrix) -> (key: Self)
        requires
            parity_check_matrix@.wf(),
            parity_check_matrix@.height() >= 1,
        ensures
            key@ == (PrivateKeyView {
                parity_check_matrix: parity_check_matrix@,
                expected_encoded_vector_size: parity_check_matrix@.width,
            }),
    {
        let expected_encoded_vector_size = parity_check_matrix.ncols();
        CertificatelessQcMdpcPrivateKey { parity_check_matrix, expected_encoded_vector_size }
    }

    /// Removes the errors from a one-row word by bit flipping and packs the
    /// corrected word into bytes, least significant bit of each byte first.
    pub fn decrypt(&self, data: &BitMatrix) -> (r: Result<Vec<u8>, CodeError>)
        ensures
            (data@.height() != 1 || data@.width != self@.expected_encoded_vector_size) <==> r
                == Err::<Vec<u8>, CodeError>(CodeError::InvalidDataSize),
            data@.height() == 1 && data@.width == self@.expected_encoded_vector_size ==> (
            match decoded_word(self@.parity_check_matrix, data@.rows[0]) {
                Some(word) => r is Ok && is_packing_of(r.unwrap()@, word),
                None => r == Err::<Vec<u8>, CodeError>(CodeError::DecodingFailure),
            }),
    {
        proof {
            use_type_invariant(self);
        }
        if data.nrows() != 1 || data.ncols() != self.expected_encoded_vector_size {
            return Err(CodeError::InvalidDataSize);
        }
        let word = data.row(0);
        match decode_word(&self.parity_check_matrix, &word) {
            Some(corrected) => Ok(pack_bits(&corrected)),
            None => Err(CodeError::DecodingFailure),
        }
    }

    /// Searches by bit flipping for the error pattern behind a syndrome,
    /// given as a one-column matrix of half the word length.
    pub fn decrypt_syndrome(&self, syndrome: &BitMatrix) -> (r: Result<Vec<bool>, CodeError>)
        ensures
            (syndrome@.width != 1 || 2 * syndrome@.height() != self@.expected_encoded_vector_size
                || syndrome@.height() != self@.parity_check_matrix.height()) <==> r == Err::<
                Vec<bool>,
                CodeError,
            >(CodeError::InvalidDataSize),
            syndrome@.width == 1 && 2 * syndrome@.height() == self@.expected_encoded_vector_size
                && syndrome@.height() == self@.parity_check_matrix.height() ==> (
            match error_pattern(self@.parity_check_matrix, column(syndrome@, 0)) {
                Some(e) => r is Ok && r.unwrap()@ == e,
                None => r == Err::<Vec<bool>, CodeError>(CodeError::DecodingFailure),
            }),
    {
        proof {
            use_type_invariant(self);
        }
        let rows = syndrome.nrows();
        if syndrome.ncols() != 1 || rows != self.parity_check_matrix.nrows() || rows
            > self.expected_encoded_vector_size / 2 || rows + rows
            != self.expected_encoded_vector_size {
            return Err(CodeError::InvalidDataSize);
        }
        let s0 = syndrome.column(0);
        match bit_flip_search(&self.parity_check_matrix, &s0) {
            Some(e) => Ok(e),
            None => Err(CodeError::DecodingFailure),
        }
    }

    /// Number of set bits in the first row of the parity-check matrix.
    pub fn weight(&self) -> (w: usize)
        ensures
            w == weight(self@.parity_check_matrix.rows[0]),
    {
        proof {
            use_type_invariant(self);
        }
        let row = self.parity_check_matrix.row(0);
        vector_weight(&row)
    }

    /// The first row of the parity-check matrix.
    pub fn first_line(&self) -> (line: Vec<bool>)
        ensures
            line@ == self@.parity_check_matrix.rows[0],
    {
        proof {
            use_type_invariant(self);
        }
        self.parity_check_matrix.row(0)
    }

    /// The parity-check matrix as text: one line of `'0'` and `'1'` per row.
    pub fn to_string(&self) -> (text: String)
        ensures
            text@ == grid_text(
                self@.parity_check_matrix,
                self@.parity_check_matrix.height() as int,
            ),
    {
        proof {
            use_type_invariant(self);
        }
        let h = self.parity_check_matrix.nrows();
        let w = self.parity_check_matrix.ncols();
        let mut text = String::new();
        let mut i: usize = 0;
        while i < h
            invariant
                i <= h,
                h == self.parity_check_matrix@.height(),
                w == self.parity_check_matrix@.width,
                self.parity_check_matrix@.wf(),
                text@ == grid_text(self.parity_check_matrix@, i as int),
            decreases h - i,
        {
            let ghost before = text@;
            let ghost line = self.parity_check_matrix@.rows[i as int].map_values(
                |b: bool| bit_char(b),
            );
            let mut j: usize = 0;
            while j < w
                invariant
                    j <= w,
                    i < h,
                    h == self.parity_check_matrix@.height(),
                    w == self.parity_check_matrix@.width,
                    self.parity_check_matrix@.wf(),
                    line == self.parity_check_matrix@.rows[i as int].map_values(
                        |b: bool| bit_char(b),
                    ),
                    text@ == before + line.subrange(0, j as int),
                decreases w - j,
            {
                let c = if self.parity_check_matrix.get(i, j) {
                    '1'
                } else {
                    '0'
                };
                push_char(&mut text, c);
                assert(text@ =~= before + line.subrange(0, j + 1));
                j = j + 1;
            }
            push_char(&mut text, '\n');
            assert(line.subrange(0, w as int) =~= line);
            assert(text@ =~= before + line + seq!['\n']);
            i = i + 1;
        }
        text
    }
}

} // verus!
