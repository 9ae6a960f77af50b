//! Arbitrary-precision integers: the arithmetic is done by `num_bigint`,
//! the contracts below speak of the number that a value stands for.

use crate::bits::pow2;
use num_bigint::{BigInt, BigUint, RandBigInt};
use rand_chacha::ChaCha20Rng;
use vstd::prelude::*;

verus! {

/// `num_bigint::BigUint`: a natural number of any size, taken as a whole.
#[verifier::external_type_specification]
#[verifier::external_body]
pub struct ExBigUint(BigUint);

/// `num_bigint::BigInt`: an integer of any size, taken as a whole.
#[verifier::external_type_specification]
#[verifier::external_body]
pub struct ExBigInt(BigInt);

/// The natural number that a `BigUint` holds.
pub uninterp spec fn biguint_value(n: BigUint) -> nat;

/// The integer that a `BigInt` holds.
pub uninterp spec fn bigint_value(n: BigInt) -> int;

/// `BigUint::from` on a machine word: the result holds the same number.
#[verifier::external_body]
pub(crate) fn biguint_from_usize(x: usize) -> (r: BigUint)
    ensures
        biguint_value(r) == x,
{
    BigUint::from(x)
}

/// `&BigUint * &BigUint`: the exact product.
#[verifier::external_body]
pub(crate) fn biguint_mul(a: &BigUint, b: &BigUint) -> (r: BigUint)
    ensures
        biguint_value(r) == biguint_value(*a) * biguint_value(*b),
{
    a * b
}

/// `&BigUint / &BigUint`: the quotient rounded down; the divisor must not
/// be zero.
#[verifier::external_body]
pub(crate) fn biguint_div(a: &BigUint, b: &BigUint) -> (r: BigUint)
    requires
        biguint_value(*b) > 0,
    ensures
        biguint_value(r) == biguint_value(*a) / biguint_value(*b),
{
    a / b
}

/// `&BigUint - &BigUint`: the exact difference; the second number must not
/// be the larger one.
#[verifier::external_body]
pub(crate) fn biguint_sub(a: &BigUint, b: &BigUint) -> (r: BigUint)
    requires
        biguint_value(*a) >= biguint_value(*b),
    ensures
        biguint_value(r) == biguint_value(*a) - biguint_value(*b),
{
    a - b
}

/// `BigUint >= BigUint`: the order of the numbers held.
#[verifier::external_body]
pub(crate) fn biguint_ge(a: &BigUint, b: &BigUint) -> (r: bool)
    ensures
        r == (biguint_value(*a) >= biguint_value(*b)),
{
    a >= b
}

/// `RandBigInt::gen_biguint_below`: some number below `bound`, which must
/// not be zero.  Nothing more is known of the draw.
#[verifier::external_body]
pub(crate) fn random_biguint_below(rng: &mut ChaCha20Rng, bound: &BigUint) -> (r: BigUint)
    requires
        biguint_value(*bound) > 0,
    ensures
        biguint_value(r) < biguint_value(*bound),
{
    rng.gen_biguint_below(bound)
}

/// `BigInt::from` on a machine word: the result holds the same number.
#[verifier::external_body]
pub(crate) fn bigint_from_usize(x: usize) -> (r: BigInt)
    ensures
        bigint_value(r) == x,
{
    BigInt::from(x)
}

/// `&BigInt << usize`: the number times a power of two.
#[verifier::external_body]
pub(crate) fn bigint_shift_left(a: &BigInt, exponent: usize) -> (r: BigInt)
    ensures
        bigint_value(r) == bigint_value(*a) * pow2(exponent as nat),
{
    a << exponent
}

/// `&BigInt + &BigInt`: the exact sum.
#[verifier::external_body]
pub(crate) fn bigint_add(a: &BigInt, b: &BigInt) -> (r: BigInt)
    ensures
        bigint_value(r) == bigint_value(*a) + bigint_value(*b),
{
    a + b
}

} // verus!
