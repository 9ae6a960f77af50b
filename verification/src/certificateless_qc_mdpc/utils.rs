//! Weighted vector generation and the circulant polynomial algebra.

use crate::bits::{
    bytes_to_bits, count_ones, lemma_count_ones_ext, lemma_xor_sum_zero, message_bit, weight,
    xor_sum,
};
use crate::error::GenerationError;
use crate::grid::{circ, circulant, is_invertible, lemma_circulant_padded, padded};
use crate::hashing::{hash_identity, identity_digest};
use crate::polynomial::{
    conv_term, convolve, cyclic_inverse, cyclic_modulus, fold, fold_term, has_cyclic_inverse,
    is_nonzero, lemma_cyclic_inverse_iff_invertible, lemma_cyclic_inverse_is, turned, unit,
};
use crate::random::random_index;
use binary_polynomial_mod_algebra::{BinaryPolynomial, NonZeroBinaryPolynomial};
use num::integer::Roots;
use rand_chacha::ChaCha20Rng;
use vstd::arithmetic::div_mod::{lemma_add_mod_noop, lemma_mod_self_0, lemma_small_mod};
use vstd::prelude::*;

verus! {

/// Draws allowed per bit that a weighted vector is to have.
pub const MAX_DRAWS_PER_BIT: usize = 64;

/// Setting a clear bit raises the count of set bits by one.
pub proof fn lemma_count_ones_set(s: Seq<bool>, i: int, n: int)
    requires
        0 <= i < n <= s.len(),
        !s[i],
    ensures
        count_ones(s.update(i, true), n) == count_ones(s, n) + 1,
    decreases n,
{
    if n - 1 == i {
        lemma_count_ones_ext(s, s.update(i, true), n - 1);
    } else {
        lemma_count_ones_set(s, i, n - 1);
    }
}

/// An all-zero vector has weight zero.
pub proof fn lemma_count_ones_zero(s: Seq<bool>, n: int)
    requires
        0 <= n <= s.len(),
        forall|k: int| 0 <= k < n ==> !#[trigger] s[k],
    ensures
        count_ones(s, n) == 0,
    decreases n,
{
    if n > 0 {
        lemma_count_ones_zero(s, n - 1);
    }
}

/// Sets the drawn position unless it is set already; says whether it was
/// clear.
pub fn mark_drawn(v: &mut Vec<bool>, idx: usize) -> (fresh: bool)
    requires
        idx < old(v)@.len(),
    ensures
        fresh == !old(v)@[idx as int],
        final(v)@ == old(v)@.update(idx as int, true),
        weight(final(v)@) == weight(old(v)@) + if fresh {
            1nat
        } else {
            0nat
        },
{
    if v[idx] {
        assert(v@ =~= old(v)@.update(idx as int, true));
        false
    } else {
        proof {
            lemma_count_ones_set(v@, idx as int, v@.len() as int);
        }
        v[idx] = true;
        true
    }
}

/// A vector of `size` bits of which exactly `weight` are set, at positions
/// drawn one by one from `rng`; a draw that hits a set bit is skipped.  At
/// most `MAX_DRAWS_PER_BIT` draws are made per bit wanted.
pub fn generate_random_weight_vector(size: usize, weight: usize, rng: &mut ChaCha20Rng) -> (r:
    Result<Vec<bool>, GenerationError>)
    ensures
        weight > size <==> r == Err::<Vec<bool>, GenerationError>(
            GenerationError::InvalidParameters,
        ),
        weight == 0 ==> r is Ok,
        r matches Ok(v) ==> v@.len() == size && crate::bits::weight(v@) == weight,
        r matches Err(e) ==> e == GenerationError::InvalidParameters || e
            == GenerationError::AttemptsExhausted,
{
    if weight > size {
        return Err(GenerationError::InvalidParameters);
    }
    let mut v: Vec<bool> = vec![false; size];
    proof {
        lemma_count_ones_zero(v@, size as int);
    }
    let mut current_weight: usize = 0;
    let mut draws: usize = 0;
    let budget: usize = if weight <= usize::MAX / MAX_DRAWS_PER_BIT {
        weight * MAX_DRAWS_PER_BIT
    } else {
        usize::MAX
    };
    while current_weight < weight && draws < budget
        invariant
            v@.len() == size,
            weight <= size,
            current_weight <= weight,
            current_weight == crate::bits::weight(v@),
            draws <= budget,
        decreases budget - draws,
    {
        let idx = random_index(rng, size);
        if mark_drawn(&mut v, idx) {
            current_weight = current_weight + 1;
        }
        draws = draws + 1;
    }
    if current_weight == weight {
        Ok(v)
    } else {
        Err(GenerationError::AttemptsExhausted)
    }
}

/// Vectors resampled before the search for an invertible one gives up.
pub const MAX_VECTOR_ATTEMPTS: usize = 4096;

/// `NonZeroBinaryPolynomial::inv_mod` with the modulus `x^p + 1`.
///
/// The polynomial, the modulus and the result are lists of coefficients
/// with the highest degree first, as `BinaryPolynomial::from` takes and
/// `into` gives them for `Vec<bool>`; `turned` reads such a list from the
/// lowest degree.  What is claimed: a polynomial that is returned times the
/// given one is 1 modulo `x^p + 1`, that is, the returned coefficients,
/// folded onto `p` places, and the given ones have the cyclic convolution
/// `1`; and where `None` is returned, no list of `p` coefficients has.  The
/// given polynomial must not be zero, as `NonZeroBinaryPolynomial::new`
/// returns `None` on zero.
#[verifier::external_body]
fn polynomial_inverse(coefficients: Vec<bool>, modulus: Vec<bool>) -> (r: Option<Vec<bool>>)
    requires
        is_nonzero(coefficients@),
        modulus@ == cyclic_modulus(coefficients@.len()),
    ensures
        match r {
            Some(v) => convolve(turned(coefficients@), fold(turned(v@), coefficients@.len()))
                == unit(coefficients@.len()),
            None => !has_cyclic_inverse(turned(coefficients@)),
        },
{
    let polynomial = NonZeroBinaryPolynomial::new(BinaryPolynomial::from(coefficients)).unwrap();
    let modulus = NonZeroBinaryPolynomial::new(BinaryPolynomial::from(modulus)).unwrap();
    match polynomial.inv_mod(&modulus) {
        Some(inverse) => Some(inverse.into()),
        None => None,
    }
}

/// `BinaryPolynomial::mul_mod` with the modulus `x^p + 1`.
///
/// The factors, the modulus and the result are lists of coefficients with
/// the highest degree first; the factors have `p` coefficients each, so
/// that their degrees are below that of the modulus, as `mul_mod` demands.
/// What is claimed: the result is the product of the factors modulo
/// `x^p + 1`, that is, its coefficients, put on `p` places, are the cyclic
/// convolution of the coefficients of the factors.
#[verifier::external_body]
fn polynomial_product(a: Vec<bool>, b: Vec<bool>, modulus: Vec<bool>) -> (r: Vec<bool>)
    requires
        a@.len() == b@.len(),
        a@.len() >= 1,
        modulus@ == cyclic_modulus(a@.len()),
    ensures
        fold(turned(r@), a@.len()) == convolve(turned(a@), turned(b@)),
{
    let modulus = NonZeroBinaryPolynomial::new(BinaryPolynomial::from(modulus)).unwrap();
    BinaryPolynomial::from(a).mul_mod(&BinaryPolynomial::from(b), &modulus).unwrap().into()
}

/// The polynomial `x^matrix_size + 1` as a list of coefficients, highest
/// degree first.
pub fn compute_polynomial_modulus(matrix_size: usize) -> (modulus: Vec<bool>)
    requires
        matrix_size >= 1,
    ensures
        modulus@ == cyclic_modulus(matrix_size as nat),
{
    let mut modulus: Vec<bool> = Vec::new();
    modulus.push(true);
    let mut i: usize = 1;
    while i < matrix_size
        invariant
            1 <= i <= matrix_size,
            modulus.len() == i,
            forall|q: int| 0 <= q < i ==> #[trigger] modulus[q] == (q == 0),
        decreases matrix_size - i,
    {
        modulus.push(false);
        i = i + 1;
    }
    modulus.push(true);
    assert(modulus@ =~= cyclic_modulus(matrix_size as nat));
    modulus
}

/// `line` read in the opposite direction.
pub fn turn_around(line: &[bool]) -> (out: Vec<bool>)
    ensures
        out@ == turned(line@),
{
    let n = line.len();
    let mut out: Vec<bool> = Vec::new();
    let mut i: usize = 0;
    while i < n
        invariant
            i <= n,
            n == line@.len(),
            out.len() == i,
            forall|q: int| 0 <= q < i ==> #[trigger] out[q] == line@[n - 1 - q],
        decreases n - i,
    {
        out.push(line[n - 1 - i]);
        i = i + 1;
    }
    assert(out@ =~= turned(line@));
    out
}

/// Reduces a list of coefficients, highest degree first, modulo `x^p + 1`
/// to a row of `p` coefficients, lowest degree first.
pub fn fold_coefficients(high_first: &Vec<bool>, p: usize) -> (row: Vec<bool>)
    requires
        p >= 1,
    ensures
        row@ == fold(turned(high_first@), p as nat),
{
    let len = high_first.len();
    let ghost c = turned(high_first@);
    let mut row: Vec<bool> = vec![false; p];
    let mut d: usize = 0;
    let mut slot: usize = 0;
    proof {
        lemma_small_mod(0, p as nat);
    }
    while d < len
        invariant
            d <= len,
            p >= 1,
            len == high_first@.len(),
            c == turned(high_first@),
            slot == d % p,
            row.len() == p,
            forall|i: int| 0 <= i < p ==> #[trigger] row[i] == xor_sum(
                fold_term(c, p as nat, i),
                d as int,
            ),
        decreases len - d,
    {
        if high_first[len - 1 - d] {
            let cur = row[slot];
            row[slot] = !cur;
        }
        proof {
            lemma_add_mod_noop(d as int, 1, p as int);
            if p == 1 {
                assert((d + 1) % 1 == 0);
            } else {
                lemma_small_mod(1, p as nat);
                if slot + 1 == p {
                    lemma_mod_self_0(p as int);
                } else {
                    lemma_small_mod((slot + 1) as nat, p as nat);
                }
            }
        }
        slot = if slot + 1 == p {
            0
        } else {
            slot + 1
        };
        d = d + 1;
    }
    assert(row@ =~= fold(c, p as nat));
    row
}

/// Whether every entry of `line` is `false`; otherwise a set position.
pub fn is_zero_vector(line: &[bool]) -> (b: bool)
    ensures
        b == !is_nonzero(line@),
{
    let mut i: usize = 0;
    while i < line.len()
        invariant
            i <= line@.len(),
            forall|q: int| 0 <= q < i ==> !#[trigger] line@[q],
        decreases line.len() - i,
    {
        if line[i] {
            return false;
        }
        i = i + 1;
    }
    true
}

/// Turning a list around twice gives it back; a list is zero exactly when
/// the turned list is.
pub proof fn lemma_turned(c: Seq<bool>)
    ensures
        turned(turned(c)) == c,
        is_nonzero(turned(c)) == is_nonzero(c),
{
    assert(turned(turned(c)) =~= c);
    if is_nonzero(c) {
        let i = choose|i: int| 0 <= i < c.len() && c[i];
        assert(turned(c)[c.len() - 1 - i]);
    }
    if is_nonzero(turned(c)) {
        let i = choose|i: int| 0 <= i < c.len() && turned(c)[i];
        assert(c[c.len() - 1 - i]);
    }
}

/// The zero polynomial has no inverse modulo `x^p + 1` for `p >= 1`.
pub proof fn lemma_zero_has_no_inverse(a: Seq<bool>)
    requires
        a.len() >= 1,
        !is_nonzero(a),
    ensures
        !has_cyclic_inverse(a),
{
    assert forall|v: Seq<bool>| v.len() == a.len() implies #[trigger] convolve(a, v) != unit(
        a.len(),
    ) by {
        assert forall|i: int| 0 <= i < a.len() implies !#[trigger] conv_term(a, v, 0)(i) by {
            assert(!a[i]);
        }
        lemma_xor_sum_zero(conv_term(a, v, 0), a.len() as int);
        assert(!convolve(a, v)[0]);
        assert(unit(a.len())[0]);
    }
}

/// The first row of the inverse of the circulant matrix with first row
/// `matrix_first_line`: the inverse of the row as a polynomial modulo
/// `x^p + 1`, or `None` where the matrix is singular.
pub fn try_invert_matrix_vector(matrix_first_line: &[bool]) -> (r: Option<Vec<bool>>)
    ensures
        r is Some <==> has_cyclic_inverse(matrix_first_line@),
        r is Some <==> is_invertible(circ(matrix_first_line@)),
        r matches Some(v) ==> v@.len() == matrix_first_line@.len() && convolve(
            matrix_first_line@,
            v@,
        ) == unit(matrix_first_line@.len()) && v@ == cyclic_inverse(matrix_first_line@),
{
    let p = matrix_first_line.len();
    proof {
        lemma_cyclic_inverse_iff_invertible(matrix_first_line@);
    }
    if p == 0 {
        let v: Vec<bool> = Vec::new();
        proof {
            assert(convolve(matrix_first_line@, v@) =~= unit(0));
            lemma_cyclic_inverse_is(matrix_first_line@, v@);
        }
        return Some(v);
    }
    if is_zero_vector(matrix_first_line) {
        proof {
            lemma_zero_has_no_inverse(matrix_first_line@);
        }
        return None;
    }
    let high_first = turn_around(matrix_first_line);
    let modulus = compute_polynomial_modulus(p);
    proof {
        lemma_turned(matrix_first_line@);
    }
    match polynomial_inverse(high_first, modulus) {
        Some(inverse) => {
            let row = fold_coefficients(&inverse, p);
            proof {
                lemma_cyclic_inverse_is(matrix_first_line@, row@);
            }
            Some(row)
        },
        None => None,
    }
}

/// The first row of the product of the circulant matrices with first rows
/// `first_line_matrix1` and `first_line_matrix2`: the product of the rows
/// as polynomials modulo `x^p + 1`.
pub fn multiply_2_matrix_first_line_vector(
    first_line_matrix1: &[bool],
    first_line_matrix2: &[bool],
) -> (r: Vec<bool>)
    requires
        first_line_matrix1@.len() == first_line_matrix2@.len(),
    ensures
        r@ == convolve(first_line_matrix1@, first_line_matrix2@),
{
    let p = first_line_matrix1.len();
    if p == 0 {
        let v: Vec<bool> = Vec::new();
        assert(v@ =~= convolve(first_line_matrix1@, first_line_matrix2@));
        return v;
    }
    let a = turn_around(first_line_matrix1);
    let b = turn_around(first_line_matrix2);
    let modulus = compute_polynomial_modulus(p);
    proof {
        lemma_turned(first_line_matrix1@);
        lemma_turned(first_line_matrix2@);
    }
    let product = polynomial_product(a, b, modulus);
    fold_coefficients(&product, p)
}

/// Whether the `p` by `p` circulant matrix of `vector`, cut or extended with
/// zeros to `p` entries, is invertible.
pub fn check_vector_leads_to_invertible_circulant_matrix(vector: &[bool], p: usize) -> (b: bool)
    ensures
        b == is_invertible(circulant(padded(vector@, p as nat), p as nat, p as nat, 1)),
        p <= vector@.len() ==> b == is_invertible(circulant(vector@, p as nat, p as nat, 1)),
{
    proof {
        if p <= vector@.len() {
            lemma_circulant_padded(vector@, p as nat, p as nat, 1);
        }
    }
    let len = vector.len();
    let mut first: Vec<bool> = Vec::new();
    let mut j: usize = 0;
    while j < p
        invariant
            j <= p,
            len == vector@.len(),
            first.len() == j,
            forall|c: int| 0 <= c < j ==> #[trigger] first[c] == (c < len && vector@[c]),
        decreases p - j,
    {
        let bit = j < len && vector[j];
        first.push(bit);
        j = j + 1;
    }
    assert(first@ =~= padded(vector@, p as nat));
    try_invert_matrix_vector(first.as_slice()).is_some()
}

/// Whether `r` is the cube root of `x` rounded down.
pub open spec fn is_cube_root(r: nat, x: nat) -> bool {
    r * r * r <= x < (r + 1) * (r + 1) * (r + 1)
}

/// The cube root of `x` rounded down.
pub open spec fn cube_root_of(x: nat) -> nat {
    choose|r: nat| is_cube_root(r, x)
}

/// `num::integer::Roots::nth_root` with the degree 3 on a machine word:
/// the cube root rounded down, the `r` with `r^3 <= x < (r + 1)^3`.
#[verifier::external_body]
pub(crate) fn integer_cube_root(x: usize) -> (r: usize)
    ensures
        is_cube_root(r as nat, x as nat),
{
    x.nth_root(3)
}

/// Only one number is the rounded-down cube root.
pub proof fn lemma_cube_root_unique(r: nat, s: nat, x: nat)
    requires
        is_cube_root(r, x),
        is_cube_root(s, x),
    ensures
        r == s,
{
    if r < s {
        assert((r + 1) * (r + 1) * (r + 1) <= s * s * s) by (nonlinear_arith)
            requires
                r + 1 <= s,
        ;
    }
    if s < r {
        assert((s + 1) * (s + 1) * (s + 1) <= r * r * r) by (nonlinear_arith)
            requires
                s + 1 <= r,
        ;
    }
}

/// The weight of the helper vectors of a code of row weight `w`: the cube
/// root of half of `w`, rounded down.
pub open spec fn helper_weight_of(w: nat) -> nat {
    cube_root_of(w / 2)
}

/// The weight of the helper vectors of a code of row weight `w`.
pub fn helper_weight(w: usize) -> (r: usize)
    ensures
        r == helper_weight_of(w as nat),
{
    let r = integer_cube_root(w >> 1);
    proof {
        assert(w >> 1 == w / 2) by (bit_vector);
        lemma_cube_root_unique(r as nat, cube_root_of((w / 2) as nat), (w / 2) as nat);
    }
    r
}

/// The vector of `k` bits bound to a digest: the first `k` bits of the
/// digest, least significant bit of each byte first, up to and including
/// the one that brings the weight to `weight`; the later bits are clear.
/// `None` where the first `k` bits of the digest hold fewer than `weight`
/// set bits.
pub open spec fn hash_bound_vector(digest: Seq<u8>, k: nat, weight: nat) -> Option<Seq<bool>> {
    let bits = bytes_to_bits(digest, k);
    if count_ones(bits, k as int) < weight {
        None
    } else {
        Some(Seq::new(k, |i: int| bits[i] && count_ones(bits, i) < weight))
    }
}

/// The vector of `k` bits and weight `weight` bound to the identity `id`.
pub open spec fn identity_vector(id: nat, k: nat, weight: nat) -> Option<Seq<bool>> {
    hash_bound_vector(identity_digest(id), k, weight)
}

/// The vector of `k` bits bound to `digest`, of weight `weight`.
pub fn hash_vector_from_digest(digest: &Vec<u8>, k: usize, weight: usize) -> (r: Result<
    Vec<bool>,
    GenerationError,
>)
    ensures
        match hash_bound_vector(digest@, k as nat, weight as nat) {
            Some(v) => r is Ok && r.unwrap()@ == v,
            None => r == Err::<Vec<bool>, GenerationError>(
                GenerationError::InsufficientHashDensity,
            ),
        },
        r matches Ok(v) ==> v@.len() == k && crate::bits::weight(v@) == weight,
{
    let ghost bits = bytes_to_bits(digest@, k as nat);
    let mut v: Vec<bool> = Vec::new();
    let mut current_weight: usize = 0;
    let mut i: usize = 0;
    while i < k
        invariant
            i <= k,
            bits == bytes_to_bits(digest@, k as nat),
            v.len() == i,
            current_weight <= weight,
            current_weight <= i,
            current_weight == if count_ones(bits, i as int) < weight {
                count_ones(bits, i as int)
            } else {
                weight as nat
            },
            current_weight == count_ones(v@, i as int),
            forall|q: int|
                0 <= q < i ==> #[trigger] v[q] == (bits[q] && count_ones(bits, q) < weight),
        decreases k - i,
    {
        let source = i / 8 < digest.len() && message_bit(digest.as_slice(), i);
        let bit = source && current_weight < weight;
        proof {
            assert(source == bits[i as int]);
            lemma_count_ones_ext(v@, v@.push(bit), i as int);
        }
        v.push(bit);
        if bit {
            current_weight = current_weight + 1;
        }
        i = i + 1;
    }
    if current_weight < weight {
        return Err(GenerationError::InsufficientHashDensity);
    }
    assert(v@ =~= Seq::new(k as nat, |i: int| bits[i] && count_ones(bits, i) < weight));
    Ok(v)
}

/// The vector of `k` bits and weight `weight` bound to the identity `id`:
/// the hash of the identity is scanned from its lowest bit, and every set
/// bit is taken over until `weight` bits are set.
pub fn generate_hash_id_vector_correct_weight(id: usize, k: usize, weight: usize) -> (r: Result<
    Vec<bool>,
    GenerationError,
>)
    ensures
        match identity_vector(id as nat, k as nat, weight as nat) {
            Some(v) => r is Ok && r.unwrap()@ == v,
            None => r == Err::<Vec<bool>, GenerationError>(
                GenerationError::InsufficientHashDensity,
            ),
        },
        r matches Ok(v) ==> v@.len() == k && crate::bits::weight(v@) == weight,
{
    let digest = hash_identity(id);
    hash_vector_from_digest(&digest, k, weight)
}

/// Whether the upper half of `v` has odd weight.
pub open spec fn upper_half_odd(v: Seq<bool>) -> bool {
    weight(v.subrange(v.len() as int / 2, v.len() as int)) % 2 == 1
}

/// Whether the upper half of `v` has odd weight.
pub fn has_odd_upper_half(v: &Vec<bool>) -> (b: bool)
    ensures
        b == upper_half_odd(v@),
{
    let n = v.len();
    let lo = n >> 1;
    assert(n >> 1 == n / 2) by (bit_vector);
    let ghost part = v@.subrange(lo as int, n as int);
    let mut odd = false;
    let mut i: usize = lo;
    while i < n
        invariant
            lo <= i <= n,
            n == v@.len(),
            part == v@.subrange(lo as int, n as int),
            odd == (count_ones(part, i - lo) % 2 == 1),
        decreases n - i,
    {
        assert(part[i - lo] == v@[i as int]);
        if v[i] {
            odd = !odd;
        }
        i = i + 1;
    }
    odd
}

/// A vector of `size` bits and weight `weight` whose circulant matrix is
/// invertible and whose upper half has odd weight.  Whole vectors are drawn
/// from `rng` until one fits, at most `MAX_VECTOR_ATTEMPTS` times.
pub fn generate_random_weight_vector_to_invertible_matrix(
    size: usize,
    weight: usize,
    rng: &mut ChaCha20Rng,
) -> (r: Result<Vec<bool>, GenerationError>)
    ensures
        weight > size <==> r == Err::<Vec<bool>, GenerationError>(
            GenerationError::InvalidParameters,
        ),
        r matches Ok(v) ==> {
            &&& v@.len() == size
            &&& crate::bits::weight(v@) == weight
            &&& has_cyclic_inverse(v@)
            &&& is_invertible(circ(v@))
            &&& upper_half_odd(v@)
        },
        r matches Err(e) ==> e == GenerationError::InvalidParameters || e
            == GenerationError::AttemptsExhausted,
{
    if weight > size {
        return Err(GenerationError::InvalidParameters);
    }
    let mut attempt: usize = 0;
    while attempt < MAX_VECTOR_ATTEMPTS
        invariant
            weight <= size,
        decreases MAX_VECTOR_ATTEMPTS - attempt,
    {
        let vector = match generate_random_weight_vector(size, weight, rng) {
            Ok(v) => v,
            Err(_) => {
                return Err(GenerationError::AttemptsExhausted);
            },
        };
        if has_odd_upper_half(&vector) && try_invert_matrix_vector(vector.as_slice()).is_some() {
            return Ok(vector);
        }
        attempt = attempt + 1;
    }
    Err(GenerationError::AttemptsExhausted)
}

} // verus!
