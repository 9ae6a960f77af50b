//! The quasi-cyclic moderate-density parity-check code: a sparse row, the
//! parity-check and generator matrices built from it, encoding and decoding.

use crate::binary_matrix_operations::{
    concat_horizontally_mat, concat_vertically_mat, expect_matrix, make_circulant_matrix,
    make_identity_matrix, try_inverse_matrix, BitMatrix,
};
use crate::bits::{
    byte_bit, bytes_to_bits, count_ones, is_packing_of, lemma_byte_ext, lemma_xor_sum_ext,
    lemma_xor_sum_single, message_bit, pack_bits, weight,
};
use crate::certificateless_qc_mdpc::utils::generate_random_weight_vector;
use crate::decoder::{
    all_false, bit_flip_search, check_term, compute_syndrome, error_pattern,
    lemma_syndrome_of_sum, lemma_zero_syndrome_decodes, syndrome, zeros,
};
use crate::elimination::xor_seq;
use crate::error::{CodeError, GenerationError};
use crate::grid::{
    circulant, dot_term, hcat, identity, inverse, is_inverse_pair, is_invertible,
    lemma_block_product, lemma_product_assoc, lemma_product_identity_left,
    lemma_product_identity_right, lemma_sum_self, lemma_transpose_hcat,
    lemma_transpose_identity, lemma_transpose_involution, lemma_transpose_product,
    lemma_zero_product, product, row_grid, transpose, vcat, zero, Grid,
};
use rand_chacha::ChaCha20Rng;
use vstd::prelude::*;
use vstd::slice::slice_subrange;

verus! {

/// Rows sampled before code generation gives up.
pub const MAX_ROW_ATTEMPTS: usize = 4096;

/// What a code is made of: its sparse row and its parameters.
pub struct CodeView {
    pub row: Seq<bool>,
    pub n0: nat,
    pub p: nat,
    pub t: nat,
}

impl CodeView {
    /// Length of a code word.
    pub open spec fn n(self) -> nat {
        self.n0 * self.p
    }

    /// Number of message bits.
    pub open spec fn k(self) -> nat {
        ((self.n0 - 1) * self.p) as nat
    }

    /// The `i`-th block of `p` entries of the row.
    pub open spec fn block(self, i: int) -> Seq<bool> {
        self.row.subrange(i * self.p, (i + 1) * self.p)
    }

    /// The last block of the row.
    pub open spec fn last_block(self) -> Seq<bool> {
        self.block(self.n0 - 1)
    }

    /// The circulant matrix of the last block.
    pub open spec fn last_circulant(self) -> Grid {
        circulant(self.last_block(), self.p, self.p, 1)
    }

    /// At least two blocks, a row of `n0 * p` bits, and a last block whose
    /// circulant matrix is invertible.
    pub open spec fn valid(self) -> bool {
        &&& self.n0 >= 2
        &&& self.p >= 1
        &&& self.n() <= u32::MAX
        &&& self.row.len() == self.n()
        &&& is_invertible(self.last_circulant())
    }

    /// The first `i` blocks of the parity-check matrix side by side: block 0
    /// with shift 1, every later block `j` with shift `j`.
    pub open spec fn parity_blocks(self, i: nat) -> Grid
        decreases i,
    {
        if i <= 1 {
            circulant(self.block(0), self.p, self.p, 1)
        } else {
            hcat(
                self.parity_blocks((i - 1) as nat),
                circulant(self.block(i - 1), self.p, self.p, i - 1),
            )
        }
    }

    /// The parity-check matrix `[H_0 | H_1 | ... | H_{n0-1}]`.
    pub open spec fn parity_check(self) -> Grid {
        self.parity_blocks(self.n0)
    }

    /// The transposed block `(H_last^-1 * H_i)^T` of the generator.
    pub open spec fn redundancy_block(self, i: int) -> Grid {
        transpose(
            product(
                inverse(self.last_circulant()).unwrap(),
                circulant(self.block(i), self.p, self.p, 1),
            ),
        )
    }

    /// The first `i` redundancy blocks stacked.
    pub open spec fn redundancy(self, i: nat) -> Grid
        decreases i,
    {
        if i <= 1 {
            self.redundancy_block(0)
        } else {
            vcat(self.redundancy((i - 1) as nat), self.redundancy_block(i - 1))
        }
    }

    /// The systematic generator matrix `[I_k | Q]`.
    pub open spec fn generator(self) -> Grid {
        hcat(identity(self.k()), self.redundancy((self.n0 - 1) as nat))
    }
}

/// The word that decoding `word` with the parity checks `h` gives: `word`
/// less the error pattern that bit flipping finds for its syndrome.
pub open spec fn decoded_word(h: Grid, word: Seq<bool>) -> Option<Seq<bool>> {
    match error_pattern(h, syndrome(h, word)) {
        Some(e) => Some(xor_seq(word, e)),
        None => None,
    }
}

/// The code word of a message: its bits, padded to `k`, times the generator.
pub open spec fn codeword(generator: Grid, data: Seq<u8>) -> Grid {
    product(row_grid(bytes_to_bits(data, generator.height())), generator)
}

/// The blocks of the parity-check matrix have `p` rows and `i * p` columns.
pub proof fn lemma_parity_blocks_shape(c: CodeView, i: nat)
    requires
        i >= 1,
    ensures
        c.parity_blocks(i).has_shape(c.p, i * c.p),
    decreases i,
{
    if i > 1 {
        lemma_parity_blocks_shape(c, (i - 1) as nat);
        assert((i - 1) * c.p + c.p == i * c.p) by (nonlinear_arith);
    } else {
        assert(1 * c.p == c.p) by (nonlinear_arith);
    }
}

/// The stacked redundancy blocks have `i * p` rows and `p` columns.
pub proof fn lemma_redundancy_shape(c: CodeView, i: nat)
    requires
        i >= 1,
        is_invertible(c.last_circulant()),
    ensures
        c.redundancy(i).has_shape(i * c.p, c.p),
    decreases i,
{
    let inv = inverse(c.last_circulant()).unwrap();
    assert(crate::grid::is_inverse_pair(c.last_circulant(), inv));
    assert(c.redundancy_block(i - 1).has_shape(c.p, c.p));
    if i > 1 {
        lemma_redundancy_shape(c, (i - 1) as nat);
        assert((i - 1) * c.p + c.p == i * c.p) by (nonlinear_arith);
    } else {
        assert(1 * c.p == c.p) by (nonlinear_arith);
    }
}

/// The syndrome of a one-row grid is a matrix product with its transpose.
pub proof fn lemma_syndrome_is_product(h: Grid, w: Grid)
    requires
        h.wf(),
        w.has_shape(1, h.width),
    ensures
        forall|r: int|
            0 <= r < h.height() ==> #[trigger] syndrome(h, w.rows[0])[r] == product(
                h,
                transpose(w),
            ).at(r, 0),
{
    assert forall|r: int| 0 <= r < h.height() implies #[trigger] syndrome(h, w.rows[0])[r]
        == product(h, transpose(w)).at(r, 0) by {
        lemma_xor_sum_ext(
            check_term(h, w.rows[0], r),
            dot_term(h, transpose(w), r, 0),
            h.width as int,
        );
    }
}

/// The parity checks of a two-block code vanish on the rows of its generator:
/// `H * G^T == 0`.
pub proof fn lemma_parity_annihilates_generator(c: CodeView)
    requires
        c.valid(),
        c.n0 == 2,
    ensures
        product(c.parity_check(), transpose(c.generator())) == zero(c.p, c.p),
        c.parity_check().has_shape(c.p, 2 * c.p),
        c.generator().has_shape(c.p, 2 * c.p),
{
    let p = c.p;
    let h0 = circulant(c.block(0), p, p, 1);
    let h1 = c.last_circulant();
    let inv = inverse(h1).unwrap();
    assert(is_inverse_pair(h1, inv));
    assert(c.parity_blocks(1) == h0);
    assert(c.parity_check() == hcat(h0, circulant(c.block(1), p, p, 1)));
    assert(c.parity_check() == hcat(h0, h1));
    let x = product(inv, h0);
    let q = transpose(x);
    assert(c.redundancy(1) == q);
    assert(c.k() == p) by (nonlinear_arith)
        requires
            c.k() == (c.n0 - 1) * c.p,
            c.n0 == 2,
            p == c.p,
    ;
    let g = hcat(identity(p), q);
    assert(c.generator() == g);
    // G^T = [I ; X]
    lemma_transpose_hcat(identity(p), q);
    lemma_transpose_identity(p);
    lemma_transpose_involution(x);
    assert(transpose(g) == vcat(identity(p), x));
    // [H0 | H1] * [I ; X] = H0 + H1 * X
    lemma_block_product(h0, h1, identity(p), x);
    lemma_product_identity_right(h0);
    // H1 * (H1^-1 * H0) = H0
    lemma_product_assoc(h1, inv, h0);
    lemma_product_identity_left(h0);
    lemma_sum_self(h0);
}

/// A code word with errors that the search finds decodes to the code
/// word, and the bytes of the decoded word begin with the message.
///
/// For parity checks `h` that vanish on the rows of a systematic generator
/// `[I_k | q]`, a message of at most `k` bits and an error pattern `e` that
/// bit flipping finds from its own syndrome: the code word of the message
/// with `e` added decodes to the code word, and any packing of the code
/// word into bytes begins with the bytes of the message.
pub proof fn lemma_systematic_round_trip(
    h: Grid,
    q: Grid,
    data: Seq<u8>,
    e: Seq<bool>,
    bytes: Seq<u8>,
)
    requires
        h.wf(),
        q.wf(),
        h.width == q.height() + q.width,
        product(h, transpose(hcat(identity(q.height()), q))) == zero(h.height(), q.height()),
        8 * data.len() <= q.height(),
        e.len() == h.width,
        error_pattern(h, syndrome(h, e)) == Some(e),
        is_packing_of(bytes, codeword(hcat(identity(q.height()), q), data).rows[0]),
    ensures
        decoded_word(
            h,
            xor_seq(codeword(hcat(identity(q.height()), q), data).rows[0], e),
        ) == Some(codeword(hcat(identity(q.height()), q), data).rows[0]),
        bytes.len() >= data.len(),
        bytes.subrange(0, data.len() as int) == data,
{
    let k = q.height();
    let g = hcat(identity(k), q);
    let m = row_grid(bytes_to_bits(data, k));
    let w = product(m, g);
    assert(w == codeword(g, data));
    let word = w.rows[0];
    // H * W^T = (H * G^T) * M^T = 0
    lemma_transpose_product(m, g);
    lemma_product_assoc(h, transpose(g), transpose(m));
    lemma_zero_product(h.height(), transpose(m));
    lemma_syndrome_is_product(h, w);
    let s0 = syndrome(h, word);
    assert(all_false(s0)) by {
        assert forall|r: int| 0 <= r < s0.len() implies !#[trigger] s0[r] by {
            assert(s0[r] == product(h, transpose(w)).at(r, 0));
        }
    }
    // the syndrome of the word with errors is the syndrome of the errors
    lemma_syndrome_of_sum(h, word, e);
    assert(xor_seq(s0, syndrome(h, e)) =~= syndrome(h, e));
    assert(xor_seq(xor_seq(word, e), e) =~= word);
    // the first k bits of the code word are the message bits
    assert forall|j: int| 0 <= j < k implies #[trigger] word[j] == bytes_to_bits(data, k)[j] by {
        let t = dot_term(m, g, 0, j);
        assert forall|i: int| 0 <= i < k && i != j implies !#[trigger] t(i) by {}
        lemma_xor_sum_single(t, k as int, j);
        assert(w.at(0, j) == t(j));
    }
    assert forall|i: int| 0 <= i < data.len() implies #[trigger] bytes[i] == data[i] by {
        assert forall|t: int| 0 <= t < 8 implies byte_bit(bytes[i], t) == byte_bit(data[i], t) by {
            let bit = 8 * i + t;
            assert(bit / 8 == i && bit % 8 == t);
            assert(byte_bit(bytes[bit / 8], bit % 8) == (bit < word.len() && word[bit]));
            assert(word[bit] == bytes_to_bits(data, k)[bit]);
        }
        lemma_byte_ext(bytes[i], data[i]);
    }
    assert(bytes.subrange(0, data.len() as int) =~= data);
}

/// The empty error pattern is found from its own syndrome.
pub proof fn lemma_no_errors_are_found(h: Grid)
    ensures
        error_pattern(h, syndrome(h, zeros(h.width))) == Some(zeros(h.width)),
        forall|word: Seq<bool>| word.len() == h.width ==> #[trigger] xor_seq(word, zeros(h.width))
            == word,
{
    let s = syndrome(h, zeros(h.width));
    assert forall|r: int| 0 <= r < s.len() implies !#[trigger] s[r] by {
        crate::bits::lemma_xor_sum_zero(check_term(h, zeros(h.width), r), h.width as int);
    }
    lemma_zero_syndrome_decodes(h, s);
    assert forall|word: Seq<bool>| word.len() == h.width implies #[trigger] xor_seq(
        word,
        zeros(h.width),
    ) == word by {
        assert(xor_seq(word, zeros(h.width)) =~= word);
    }
}

/// Decoding removes the errors that bit flipping finds.
///
/// For a two-block code, a message of at most `k` bits and an error
/// pattern that the search finds from its own syndrome: the code word of
/// the message with the errors added decodes to the code word, and any
/// packing of the code word into bytes begins with the bytes of the
/// message.
pub proof fn law_decode_removes_found_errors(
    c: CodeView,
    data: Seq<u8>,
    e: Seq<bool>,
    bytes: Seq<u8>,
)
    requires
        c.valid(),
        c.n0 == 2,
        8 * data.len() <= c.k(),
        e.len() == c.n(),
        error_pattern(c.parity_check(), syndrome(c.parity_check(), e)) == Some(e),
        is_packing_of(bytes, codeword(c.generator(), data).rows[0]),
    ensures
        decoded_word(c.parity_check(), xor_seq(codeword(c.generator(), data).rows[0], e)) == Some(
            codeword(c.generator(), data).rows[0],
        ),
        bytes.len() >= data.len(),
        bytes.subrange(0, data.len() as int) == data,
{
    lemma_parity_annihilates_generator(c);
    lemma_redundancy_shape(c, 1);
    assert(c.k() == c.p) by (nonlinear_arith)
        requires
            c.k() == (c.n0 - 1) * c.p,
            c.n0 == 2,
    ;
    assert(c.n() == 2 * c.p) by (nonlinear_arith)
        requires
            c.n() == c.n0 * c.p,
            c.n0 == 2,
    ;
    lemma_systematic_round_trip(c.parity_check(), c.redundancy(1), data, e, bytes);
}

/// Encoding and then decoding gives the message back.
///
/// For a two-block code and a message of at most `k` bits: the code word of
/// the message decodes to itself, and any packing of it into bytes begins
/// with the bytes of the message.
pub proof fn law_decode_inverts_encode(c: CodeView, data: Seq<u8>, bytes: Seq<u8>)
    requires
        c.valid(),
        c.n0 == 2,
        8 * data.len() <= c.k(),
        is_packing_of(bytes, codeword(c.generator(), data).rows[0]),
    ensures
        decoded_word(c.parity_check(), codeword(c.generator(), data).rows[0]) == Some(
            codeword(c.generator(), data).rows[0],
        ),
        bytes.len() >= data.len(),
        bytes.subrange(0, data.len() as int) == data,
{
    let h = c.parity_check();
    lemma_parity_annihilates_generator(c);
    lemma_no_errors_are_found(h);
    assert(c.n() == 2 * c.p) by (nonlinear_arith)
        requires
            c.n() == c.n0 * c.p,
            c.n0 == 2,
    ;
    let word = codeword(c.generator(), data).rows[0];
    assert(word.len() == h.width);
    law_decode_removes_found_errors(c, data, zeros(h.width), bytes);
}

/// Number of set bits among `row[lo..hi]`.
pub open spec fn range_ones(row: Seq<bool>, lo: int, hi: int) -> nat {
    weight(row.subrange(lo, hi))
}

/// A quasi-cyclic code: `n0` blocks of `p` bits in one sparse row.
#[derive(Debug)]
pub struct QcMdpc {
    row: Vec<bool>,
    n0: u32,
    p: u32,
    t: u32,
    n: u32,
    k: u32,
}

/// What a public key holds.
pub struct PublicKeyView {
    pub k: nat,
    pub t: nat,
    pub n: nat,
    pub generator: Grid,
}

/// What a private key holds.
pub struct PrivateKeyView {
    pub k: nat,
    pub n: nat,
    pub parity_check: Grid,
}

/// The generator matrix of a code with its parameters.
pub struct QcMdpcPublicKey {
    k: u32,
    t: u32,
    n: u32,
    generator_matrix: BitMatrix,
}

/// The parity-check matrix of a code with its parameters.
pub struct QcMdpcPrivateKey {
    parity_check_matrix: BitMatrix,
    k: u32,
    n: u32,
}

impl View for QcMdpc {
    type V = CodeView;

    closed spec fn view(&self) -> CodeView {
        CodeView { row: self.row@, n0: self.n0 as nat, p: self.p as nat, t: self.t as nat }
    }
}

impl Clone for QcMdpc {
    fn clone(&self) -> (r: Self)
        ensures
            r@ == self@,
    {
        proof {
            use_type_invariant(self);
        }
        let row = self.row.clone();
        assert(row@ =~= self.row@);
        QcMdpc { row, n0: self.n0, p: self.p, t: self.t, n: self.n, k: self.k }
    }
}

impl View for QcMdpcPublicKey {
    type V = PublicKeyView;

    closed spec fn view(&self) -> PublicKeyView {
        PublicKeyView {
            k: self.k as nat,
            t: self.t as nat,
            n: self.n as nat,
            generator: self.generator_matrix@,
        }
    }
}

impl View for QcMdpcPrivateKey {
    type V = PrivateKeyView;

    closed spec fn view(&self) -> PrivateKeyView {
        PrivateKeyView {
            k: self.k as nat,
            n: self.n as nat,
            parity_check: self.parity_check_matrix@,
        }
    }
}

impl QcMdpcPublicKey {
    #[verifier::type_invariant]
    spec fn well_formed(&self) -> bool {
        self.generator_matrix@.has_shape(self.k as nat, self.n as nat)
    }

    /// Number of message bits that one code word carries.
    pub fn max_message_length(&self) -> (k: usize)
        ensures
            k == self@.k,
    {
        self.k as usize
    }

    /// Number of errors that the code is meant to correct.
    pub fn max_error_weight(&self) -> (t: usize)
        ensures
            t == self@.t,
    {
        self.t as usize
    }

    /// Length of a code word.
    pub fn encoded_vector_size(&self) -> (n: usize)
        ensures
            n == self@.n,
            self@.generator.has_shape(self@.k, self@.n),
    {
        proof {
            use_type_invariant(self);
        }
        self.n as usize
    }
}

impl QcMdpcPrivateKey {
    #[verifier::type_invariant]
    spec fn well_formed(&self) -> bool {
        &&& self.parity_check_matrix@.wf()
        &&& self.parity_check_matrix@.width == self.n
        &&& self.k <= self.n
    }

    /// Length of the words that this key decodes.
    pub fn expected_encoded_vector_size(&self) -> (n: usize)
        ensures
            n == self@.n,
            self@.k <= self@.n,
            self@.parity_check.wf(),
            self@.parity_check.width == self@.n,
    {
        proof {
            use_type_invariant(self);
        }
        self.n as usize
    }

    /// The parity-check matrix.
    pub fn parity_check_matrix(&self) -> (h: &BitMatrix)
        ensures
            h@ == self@.parity_check,
    {
        &self.parity_check_matrix
    }

    /// Number of message bits that one code word carries.
    pub fn max_message_length(&self) -> (k: usize)
        ensures
            k == self@.k,
    {
        self.k as usize
    }
}

/// Number of set bits among `row[lo..hi]`.
pub fn range_weight(row: &Vec<bool>, lo: usize, hi: usize) -> (w: usize)
    requires
        lo <= hi <= row@.len(),
    ensures
        w == range_ones(row@, lo as int, hi as int),
{
    let ghost part = row@.subrange(lo as int, hi as int);
    let mut w: usize = 0;
    let mut i: usize = lo;
    while i < hi
        invariant
            lo <= i <= hi <= row@.len(),
            part == row@.subrange(lo as int, hi as int),
            w == count_ones(part, i - lo),
            w <= i - lo,
        decreases hi - i,
    {
        assert(part[i - lo] == row@[i as int]);
        if row[i] {
            w = w + 1;
        }
        i = i + 1;
    }
    w
}

impl QcMdpc {
    #[verifier::type_invariant]
    spec fn well_formed(&self) -> bool {
        &&& self@.valid()
        &&& self.n == self@.n()
        &&& self.k == self@.k()
    }

    /// Samples a code with `n0` blocks of `p` bits and row weight `w`, meant
    /// to correct `t` errors.  A row is kept only if its last block has odd
    /// weight and an invertible circulant matrix; otherwise it is sampled
    /// anew, at most `MAX_ROW_ATTEMPTS` times.
    pub fn init(n0: u32, p: u32, w: u32, t: u32, rng: &mut ChaCha20Rng) -> (r: Result<
        QcMdpc,
        GenerationError,
    >)
        ensures
            (n0 < 2 || p == 0 || n0 * p > u32::MAX || w > n0 * p) <==> r == Err::<
                QcMdpc,
                GenerationError,
            >(GenerationError::InvalidParameters),
            r matches Ok(code) ==> {
                &&& code@.valid()
                &&& code@.n0 == n0
                &&& code@.p == p
                &&& code@.t == t
                &&& weight(code@.row) == w
                &&& weight(code@.last_block()) % 2 == 1
            },
            r matches Err(e) ==> e == GenerationError::InvalidParameters || e
                == GenerationError::AttemptsExhausted,
    {
        if n0 < 2 || p == 0 {
            return Err(GenerationError::InvalidParameters);
        }
        let n = match n0.checked_mul(p) {
            Some(n) => n,
            None => {
                return Err(GenerationError::InvalidParameters);
            },
        };
        if w > n {
            return Err(GenerationError::InvalidParameters);
        }
        assert((n0 - 1) * p == n - p) by (nonlinear_arith)
            requires
                n == n0 * p,
        ;
        let k: u32 = n - p;
        let mut attempt: usize = 0;
        while attempt < MAX_ROW_ATTEMPTS
            invariant
                n0 >= 2,
                p >= 1,
                n == n0 * p,
                k == n - p,
                k == (n0 - 1) * p,
                w <= n,
            decreases MAX_ROW_ATTEMPTS - attempt,
        {
            let row = match generate_random_weight_vector(n as usize, w as usize, rng) {
                Ok(row) => row,
                Err(_) => {
                    return Err(GenerationError::AttemptsExhausted);
                },
            };
            if range_weight(&row, k as usize, n as usize) % 2 == 1 {
                let circ = make_circulant_matrix(
                    slice_subrange(row.as_slice(), k as usize, n as usize),
                    p as usize,
                    p as usize,
                    1,
                );
                if try_inverse_matrix(&circ).is_some() {
                    let code = QcMdpc { row, n0, p, t, n, k };
                    assert(code@.last_block() == row@.subrange(k as int, n as int)) by {
                        assert((n0 - 1) * p == k);
                        assert((n0 - 1 + 1) * p == n);
                    }
                    return Ok(code);
                }
            }
            attempt = attempt + 1;
        }
        Err(GenerationError::AttemptsExhausted)
    }

    /// Number of set bits of the row from position `min_value_included` to
    /// position `max_value_included`, both counted in.
    pub fn get_row_weight(&self, min_value_included: u32, max_value_included: u32) -> (w: usize)
        requires
            min_value_included <= max_value_included + 1,
            max_value_included < self@.row.len(),
        ensures
            w == range_ones(self@.row, min_value_included as int, max_value_included + 1),
    {
        proof {
            use_type_invariant(self);
        }
        range_weight(&self.row, min_value_included as usize, max_value_included as usize + 1)
    }

    /// The circulant matrix with shift `shift` of block `i` of the row.
    fn block_matrix(&self, i: usize, shift: usize) -> (m: BitMatrix)
        requires
            i < self@.n0,
        ensures
            m@ == circulant(self@.block(i as int), self@.p, self@.p, shift as int),
    {
        proof {
            use_type_invariant(self);
            assert(i * self.p + self.p == (i + 1) * self.p) by (nonlinear_arith);
            assert((i + 1) * self.p <= self.n0 * self.p) by (nonlinear_arith)
                requires
                    i + 1 <= self.n0,
            ;
            assert(0 <= i * self.p) by (nonlinear_arith);
        }
        let p = self.p as usize;
        let start = i * p;
        make_circulant_matrix(slice_subrange(self.row.as_slice(), start, start + p), p, p, shift)
    }

    /// The parity-check matrix `[H_0 | ... | H_{n0-1}]`.
    fn parity_check_matrix(&self) -> (h: BitMatrix)
        ensures
            h@ == self@.parity_check(),
            h@.has_shape(self@.p, self@.n()),
    {
        proof {
            use_type_invariant(self);
        }
        let n0 = self.n0 as usize;
        let mut h = self.block_matrix(0, 1);
        let mut i: usize = 1;
        while i < n0
            invariant
                1 <= i <= n0,
                n0 == self@.n0,
                self@.valid(),
                h@ == self@.parity_blocks(i as nat),
            decreases n0 - i,
        {
            let m = self.block_matrix(i, i);
            proof {
                lemma_parity_blocks_shape(self@, i as nat);
                assert(i * self@.p + self@.p <= self@.n0 * self@.p) by (nonlinear_arith)
                    requires
                        i + 1 <= self@.n0,
                ;
            }
            let r = concat_horizontally_mat(&mut h, &m);
            assert(r is Ok);
            i = i + 1;
        }
        proof {
            lemma_parity_blocks_shape(self@, n0 as nat);
        }
        h
    }

    /// The systematic generator matrix `[I_k | Q]`.
    fn generator_matrix(&self) -> (g: BitMatrix)
        ensures
            g@ == self@.generator(),
            g@.has_shape(self@.k(), self@.n()),
    {
        proof {
            use_type_invariant(self);
        }
        let n0 = self.n0 as usize;
        let circ = self.block_matrix(n0 - 1, 1);
        let h_inv = match try_inverse_matrix(&circ) {
            Some(inv) => inv,
            None => vstd::pervasive::unreached(),
        };
        assert(inverse(self@.last_circulant()) == Some(h_inv@));
        let h_0 = self.block_matrix(0, 1);
        let mut q = expect_matrix(h_inv.multiply(&h_0)).transposed();
        let mut i: usize = 1;
        while i < n0 - 1
            invariant
                1 <= i <= n0 - 1,
                n0 == self@.n0,
                self@.valid(),
                inverse(self@.last_circulant()) == Some(h_inv@),
                h_inv@.has_shape(self@.p, self@.p),
                q@ == self@.redundancy(i as nat),
            decreases n0 - 1 - i,
        {
            let m = self.block_matrix(i, 1);
            let m = expect_matrix(h_inv.multiply(&m)).transposed();
            proof {
                lemma_redundancy_shape(self@, i as nat);
            }
            let r = concat_vertically_mat(&mut q, &m);
            assert(r is Ok);
            i = i + 1;
        }
        let mut g = make_identity_matrix(self.k as usize);
        proof {
            lemma_redundancy_shape(self@, (n0 - 1) as nat);
            assert((self@.n0 - 1) * self@.p + self@.p == self@.n0 * self@.p) by (nonlinear_arith);
        }
        let r = concat_horizontally_mat(&mut g, &q);
        assert(r is Ok);
        g
    }

    /// The public key: the generator matrix with the code's parameters.
    pub fn get_public_key(&self) -> (key: QcMdpcPublicKey)
        ensures
            key@ == (PublicKeyView {
                k: self@.k(),
                t: self@.t,
                n: self@.n(),
                generator: self@.generator(),
            }),
    {
        proof {
            use_type_invariant(self);
        }
        QcMdpcPublicKey {
            k: self.k,
            t: self.t,
            n: self.n,
            generator_matrix: self.generator_matrix(),
        }
    }

    /// The private key: the parity-check matrix with the code's parameters.
    pub fn get_private_key(&self) -> (key: QcMdpcPrivateKey)
        ensures
            key@ == (PrivateKeyView {
                k: self@.k(),
                n: self@.n(),
                parity_check: self@.parity_check(),
            }),
    {
        proof {
            use_type_invariant(self);
            assert(self@.k() <= self@.n()) by (nonlinear_arith)
                requires
                    self@.k() == (self@.n0 - 1) * self@.p,
                    self@.n() == self@.n0 * self@.p,
                    self@.n0 >= 1,
            ;
        }
        QcMdpcPrivateKey {
            parity_check_matrix: self.parity_check_matrix(),
            k: self.k,
            n: self.n,
        }
    }

    /// The code word of `data`: its bits, least significant bit of each
    /// byte first and padded with zeros to `k` bits, times the generator.
    /// A message of more than `k` bits is refused.
    pub fn encode_data(public_key: &QcMdpcPublicKey, data: &[u8]) -> (r: Result<
        BitMatrix,
        CodeError,
    >)
        ensures
            8 * data@.len() > public_key@.k <==> r == Err::<BitMatrix, CodeError>(
                CodeError::DataTooLarge,
            ),
            r matches Ok(c) ==> c@ == codeword(public_key@.generator, data@),
            r is Err ==> 8 * data@.len() > public_key@.k,
    {
        proof {
            use_type_invariant(public_key);
        }
        let k = public_key.k as usize;
        if data.len() > k / 8 {
            return Err(CodeError::DataTooLarge);
        }
        let used = data.len() * 8;
        let mut bits: Vec<bool> = Vec::new();
        let mut i: usize = 0;
        while i < k
            invariant
                i <= k,
                used == 8 * data@.len(),
                used <= k,
                bits.len() == i,
                forall|q: int|
                    0 <= q < i ==> #[trigger] bits[q] == bytes_to_bits(data@, k as nat)[q],
            decreases k - i,
        {
            let bit = i < used && message_bit(data, i);
            bits.push(bit);
            i = i + 1;
        }
        assert(bits@ =~= bytes_to_bits(data@, k as nat));
        let message = BitMatrix::from_row_vector(&bits);
        Ok(expect_matrix(message.multiply(&public_key.generator_matrix)))
    }

    /// Decodes a one-row word of `n` bits by bit flipping and packs the
    /// corrected word into bytes, least significant bit of each byte first.
    pub fn decode_data(private_key: &QcMdpcPrivateKey, encoded_data: &BitMatrix) -> (r: Result<
        Vec<u8>,
        CodeError,
    >)
        ensures
            (encoded_data@.height() != 1 || encoded_data@.width != private_key@.n) <==> r
                == Err::<Vec<u8>, CodeError>(CodeError::InvalidDataSize),
            encoded_data@.height() == 1 && encoded_data@.width == private_key@.n ==> (
            match decoded_word(private_key@.parity_check, encoded_data@.rows[0]) {
                Some(word) => r is Ok && is_packing_of(r.unwrap()@, word),
                None => r == Err::<Vec<u8>, CodeError>(CodeError::DecodingFailure),
            }),
    {
        proof {
            use_type_invariant(private_key);
        }
        if encoded_data.nrows() != 1 || encoded_data.ncols() != private_key.n as usize {
            return Err(CodeError::InvalidDataSize);
        }
        let word = encoded_data.row(0);
        match decode_word(&private_key.parity_check_matrix, &word) {
            Some(corrected) => Ok(pack_bits(&corrected)),
            None => Err(CodeError::DecodingFailure),
        }
    }
}

/// Corrects `word` by bit flipping against the parity checks `h`.
pub fn decode_word(h: &BitMatrix, word: &Vec<bool>) -> (r: Option<Vec<bool>>)
    requires
        word@.len() == h@.width,
    ensures
        match r {
            Some(w) => decoded_word(h@, word@) == Some(w@),
            None => decoded_word(h@, word@) is None,
        },
{
    let s0 = compute_syndrome(h, word);
    match bit_flip_search(h, &s0) {
        Some(e) => {
            let n = word.len();
            let mut out: Vec<bool> = Vec::new();
            let mut j: usize = 0;
            while j < n
                invariant
                    j <= n,
                    n == word@.len(),
                    e@.len() == n,
                    out.len() == j,
                    forall|c: int| 0 <= c < j ==> #[trigger] out[c] == (word@[c] != e@[c]),
                decreases n - j,
            {
                out.push(word[j] != e[j]);
                j = j + 1;
            }
            assert(out@ =~= xor_seq(word@, e@));
            Some(out)
        },
        None => None,
    }
}

} // verus!
