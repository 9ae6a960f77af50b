//! Hashing of node identities: SHA3-512 over the decimal digits of the
//! identity.

use sha3::{Digest, Sha3_512};
use vstd::prelude::*;

verus! {

/// The SHA3-512 digest of a byte string.
pub uninterp spec fn sha3_512_digest(data: Seq<u8>) -> Seq<u8>;

/// `sha3::Sha3_512::digest`: the digest of `data`, which is a function of
/// `data` alone and has 64 bytes.
#[verifier::external_body]
pub(crate) fn sha3_512(data: &Vec<u8>) -> (digest: Vec<u8>)
    ensures
        digest@ == sha3_512_digest(data@),
        digest@.len() == 64,
{
    Sha3_512::digest(data).to_vec()
}

/// The decimal digits of `n` in ASCII, most significant digit first.
pub open spec fn decimal_digits(n: nat) -> Seq<u8>
    decreases n,
{
    if n < 10 {
        seq![(48 + n) as u8]
    } else {
        decimal_digits(n / 10).push((48 + n % 10) as u8)
    }
}

/// The digest that stands for the node identity `id`.
pub open spec fn identity_digest(id: nat) -> Seq<u8> {
    sha3_512_digest(decimal_digits(id))
}

/// The decimal digits of `id` in ASCII, most significant digit first.
pub fn decimal_string(id: usize) -> (digits: Vec<u8>)
    ensures
        digits@ == decimal_digits(id as nat),
{
    // least significant digit first, then turned around
    let mut low_first: Vec<u8> = Vec::new();
    let mut rest = id;
    assert(decimal_digits(id as nat) =~= decimal_digits(rest as nat) + low_first@.reverse());
    while rest >= 10
        invariant
            decimal_digits(id as nat) == decimal_digits(rest as nat) + low_first@.reverse(),
        decreases rest,
    {
        let digit: u8 = 48 + (rest % 10) as u8;
        proof {
            let before = low_first@;
            let after = before.push(digit);
            assert(after.reverse() =~= seq![digit] + before.reverse());
            assert(decimal_digits(rest as nat) == decimal_digits((rest / 10) as nat).push(digit));
            assert(decimal_digits((rest / 10) as nat).push(digit) + before.reverse()
                =~= decimal_digits((rest / 10) as nat) + after.reverse());
        }
        low_first.push(digit);
        rest = rest / 10;
    }
    proof {
        let last: u8 = (48 + rest) as u8;
        let before = low_first@;
        assert(before.push(last).reverse() =~= seq![last] + before.reverse());
        assert(decimal_digits(rest as nat) =~= seq![last]);
    }
    low_first.push(48 + rest as u8);
    let n = low_first.len();
    let mut digits: Vec<u8> = Vec::new();
    let mut i: usize = 0;
    while i < n
        invariant
            i <= n,
            n == low_first.len(),
            digits.len() == i,
            forall|q: int| 0 <= q < i ==> #[trigger] digits[q] == low_first[n - 1 - q],
        decreases n - i,
    {
        digits.push(low_first[n - 1 - i]);
        i = i + 1;
    }
    assert(digits@ =~= low_first@.reverse());
    digits
}

/// The digest that stands for the node identity `id`.
pub fn hash_identity(id: usize) -> (digest: Vec<u8>)
    ensures
        digest@ == identity_digest(id as nat),
        digest@.len() == 64,
{
    let digits = decimal_string(id);
    sha3_512(&digits)
}

} // verus!
