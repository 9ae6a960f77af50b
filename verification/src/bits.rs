//! Finite XOR sums over GF(2) and elementary facts about bit vectors.

use vstd::prelude::*;

verus! {

/// XOR of `f(0), f(1), ..., f(n - 1)`; `false` for `n <= 0`.
pub open spec fn xor_sum(f: spec_fn(int) -> bool, n: int) -> bool
    decreases n,
{
    if n <= 0 {
        false
    } else {
        xor_sum(f, n - 1) != f(n - 1)
    }
}

/// Two term functions that agree below `n` have the same sum.
pub proof fn lemma_xor_sum_ext(f: spec_fn(int) -> bool, g: spec_fn(int) -> bool, n: int)
    requires
        forall|k: int| 0 <= k < n ==> #[trigger] f(k) == g(k),
    ensures
        xor_sum(f, n) == xor_sum(g, n),
    decreases n,
{
    if n > 0 {
        lemma_xor_sum_ext(f, g, n - 1);
    }
}

/// A sum whose terms all vanish is `false`.
pub proof fn lemma_xor_sum_zero(f: spec_fn(int) -> bool, n: int)
    requires
        forall|k: int| 0 <= k < n ==> !#[trigger] f(k),
    ensures
        !xor_sum(f, n),
    decreases n,
{
    if n > 0 {
        lemma_xor_sum_zero(f, n - 1);
    }
}

/// A sum whose terms vanish except possibly at `i` equals the term at `i`.
pub proof fn lemma_xor_sum_single(f: spec_fn(int) -> bool, n: int, i: int)
    requires
        0 <= i < n,
        forall|k: int| 0 <= k < n && k != i ==> !#[trigger] f(k),
    ensures
        xor_sum(f, n) == f(i),
    decreases n,
{
    if n - 1 == i {
        lemma_xor_sum_zero(f, n - 1);
    } else {
        lemma_xor_sum_single(f, n - 1, i);
    }
}

/// The sum of termwise XORs is the XOR of the sums.
pub proof fn lemma_xor_sum_add(
    f: spec_fn(int) -> bool,
    g: spec_fn(int) -> bool,
    h: spec_fn(int) -> bool,
    n: int,
)
    requires
        forall|k: int| 0 <= k < n ==> #[trigger] h(k) == (f(k) != g(k)),
    ensures
        xor_sum(h, n) == (xor_sum(f, n) != xor_sum(g, n)),
    decreases n,
{
    if n > 0 {
        lemma_xor_sum_add(f, g, h, n - 1);
    }
}

/// A common factor can be pulled out of a sum.
pub proof fn lemma_xor_sum_scale(c: bool, f: spec_fn(int) -> bool, h: spec_fn(int) -> bool, n: int)
    requires
        forall|k: int| 0 <= k < n ==> #[trigger] h(k) == (c && f(k)),
    ensures
        xor_sum(h, n) == (c && xor_sum(f, n)),
    decreases n,
{
    if n > 0 {
        lemma_xor_sum_scale(c, f, h, n - 1);
    }
}

/// The inner sums of a double sum, as a function of the outer index.
pub open spec fn inner_sums(g: spec_fn(int, int) -> bool, n: int) -> spec_fn(int) -> bool {
    |i: int| xor_sum(|j: int| g(i, j), n)
}

/// The same double sum taken column first.
pub open spec fn outer_sums(g: spec_fn(int, int) -> bool, m: int) -> spec_fn(int) -> bool {
    |j: int| xor_sum(|i: int| g(i, j), m)
}

/// The order of summation in a double sum does not matter.
pub proof fn lemma_xor_sum_exchange(g: spec_fn(int, int) -> bool, m: int, n: int)
    ensures
        xor_sum(inner_sums(g, n), m) == xor_sum(outer_sums(g, m), n),
    decreases m,
{
    if m <= 0 {
        assert forall|j: int| 0 <= j < n implies !(#[trigger] outer_sums(g, m)(j)) by {}
        lemma_xor_sum_zero(outer_sums(g, m), n);
    } else {
        lemma_xor_sum_exchange(g, m - 1, n);
        let last = |j: int| g(m - 1, j);
        assert forall|j: int| 0 <= j < n implies #[trigger] outer_sums(g, m)(j) == (outer_sums(
            g,
            m - 1,
        )(j) != last(j)) by {}
        lemma_xor_sum_add(outer_sums(g, m - 1), last, outer_sums(g, m), n);
        assert(inner_sums(g, n)(m - 1) == xor_sum(last, n));
    }
}

/// Changing the terms at two places leaves the sum alone when the XOR of the
/// two terms stays the same.
pub proof fn lemma_xor_sum_two_point(
    f: spec_fn(int) -> bool,
    g: spec_fn(int) -> bool,
    n: int,
    a: int,
    b: int,
)
    requires
        0 <= a < n,
        0 <= b < n,
        a != b,
        forall|k: int| 0 <= k < n && k != a && k != b ==> #[trigger] f(k) == g(k),
        (f(a) != f(b)) == (g(a) != g(b)),
    ensures
        xor_sum(f, n) == xor_sum(g, n),
{
    let d = |k: int| f(k) != g(k);
    lemma_xor_sum_add(f, g, d, n);
    let lo = if a < b { a } else { b };
    let hi = if a < b { b } else { a };
    lemma_xor_sum_two_terms(d, n, lo, hi);
}

/// A sum whose terms vanish except possibly at `a < b` is the XOR of those two.
pub proof fn lemma_xor_sum_two_terms(f: spec_fn(int) -> bool, n: int, a: int, b: int)
    requires
        0 <= a < b < n,
        forall|k: int| 0 <= k < n && k != a && k != b ==> !#[trigger] f(k),
    ensures
        xor_sum(f, n) == (f(a) != f(b)),
    decreases n,
{
    if n - 1 == b {
        lemma_xor_sum_single(f, n - 1, a);
    } else {
        lemma_xor_sum_two_terms(f, n - 1, a, b);
    }
}

/// The terms of `f` from `start` on.
pub open spec fn shifted(f: spec_fn(int) -> bool, start: int) -> spec_fn(int) -> bool {
    |k: int| f(start + k)
}

/// A sum over `n + m` terms splits into the first `n` and the last `m`.
pub proof fn lemma_xor_sum_split(f: spec_fn(int) -> bool, n: int, m: int)
    requires
        0 <= n,
        0 <= m,
    ensures
        xor_sum(f, n + m) == (xor_sum(f, n) != xor_sum(shifted(f, n), m)),
    decreases m,
{
    if m > 0 {
        lemma_xor_sum_split(f, n, m - 1);
    }
}

/// The terms of `f` taken cyclically from `s` on, modulo `n`.
pub open spec fn rotated(f: spec_fn(int) -> bool, n: int, s: int) -> spec_fn(int) -> bool {
    |k: int| f((k + s) % n)
}

/// A sum over a full cycle does not depend on where the cycle starts.
pub proof fn lemma_xor_sum_rotate(f: spec_fn(int) -> bool, n: int, s: int)
    requires
        0 < n,
    ensures
        xor_sum(rotated(f, n, s), n) == xor_sum(f, n),
{
    let r = s % n;
    let g = rotated(f, n, s);
    // g(k) = f(k + r) for k < n - r, and f(k + r - n) for k >= n - r
    assert forall|k: int| 0 <= k < n implies #[trigger] ((k + s) % n) == (if k + r < n {
        k + r
    } else {
        k + r - n
    }) by {
        lemma_mod_shift(k, s, n);
    }
    lemma_xor_sum_split(g, n - r, r);
    lemma_xor_sum_split(f, r, n - r);
    assert forall|k: int| 0 <= k < n - r implies #[trigger] g(k) == shifted(f, r)(k) by {}
    lemma_xor_sum_ext(g, shifted(f, r), n - r);
    assert forall|k: int| 0 <= k < r implies #[trigger] shifted(g, n - r)(k) == f(k) by {}
    lemma_xor_sum_ext(shifted(g, n - r), f, r);
}

/// `(k + s) % n` for `0 <= k < n`, in terms of `s % n`.
pub proof fn lemma_mod_shift(k: int, s: int, n: int)
    requires
        0 < n,
        0 <= k < n,
    ensures
        (k + s) % n == (if k + s % n < n {
            k + s % n
        } else {
            k + s % n - n
        }),
{
    let r = s % n;
    let q = s / n;
    assert(s == q * n + r) by (nonlinear_arith)
        requires
            n > 0,
            r == s % n,
            q == s / n,
    ;
    if k + r < n {
        assert((k + s) % n == k + r) by (nonlinear_arith)
            requires
                n > 0,
                s == q * n + r,
                0 <= k + r < n,
        ;
    } else {
        assert((k + s) % n == k + r - n) by (nonlinear_arith)
            requires
                n > 0,
                s == q * n + r,
                n <= k + r < 2 * n,
        ;
    }
}

/// The terms of `f` below `n` in reverse order.
pub open spec fn reversed(f: spec_fn(int) -> bool, n: int) -> spec_fn(int) -> bool {
    |k: int| f(n - 1 - k)
}

/// A sum does not depend on the direction in which its terms are taken.
pub proof fn lemma_xor_sum_reverse(f: spec_fn(int) -> bool, n: int)
    ensures
        xor_sum(reversed(f, n), n) == xor_sum(f, n),
    decreases n,
{
    if n > 0 {
        let g = reversed(f, n);
        // g(0) = f(n - 1); the rest of g is the reverse of the first n - 1 terms of f
        lemma_xor_sum_split(g, 1, n - 1);
        assert(xor_sum(g, 1) == g(0)) by {
            assert(xor_sum(g, 0) == false);
        }
        assert forall|k: int| 0 <= k < n - 1 implies #[trigger] shifted(g, 1)(k) == reversed(
            f,
            n - 1,
        )(k) by {}
        lemma_xor_sum_ext(shifted(g, 1), reversed(f, n - 1), n - 1);
        lemma_xor_sum_reverse(f, n - 1);
    }
}

/// Number of `true` entries among the first `n` entries of `s`.
pub open spec fn count_ones(s: Seq<bool>, n: int) -> nat
    decreases n,
{
    if n <= 0 {
        0
    } else {
        count_ones(s, n - 1) + if s[n - 1] {
            1nat
        } else {
            0nat
        }
    }
}

/// Hamming weight of a bit vector.
pub open spec fn weight(s: Seq<bool>) -> nat {
    count_ones(s, s.len() as int)
}

/// At most `n` of the first `n` entries are set.
pub proof fn lemma_count_ones_bound(s: Seq<bool>, n: int)
    requires
        0 <= n,
    ensures
        count_ones(s, n) <= n,
    decreases n,
{
    if n > 0 {
        lemma_count_ones_bound(s, n - 1);
    }
}

/// A vector whose set bits are the places listed by an increasing sequence
/// has as many set bits below `n` as places are listed below `n`.
pub proof fn lemma_count_ones_listed(s: Seq<bool>, places: Seq<int>, n: int, m: int)
    requires
        0 <= n,
        0 <= m <= places.len(),
        forall|i: int, j: int| 0 <= i < j < places.len() ==> places[i] < places[j],
        forall|q: int| 0 <= q < m ==> 0 <= (#[trigger] places[q]) && places[q] < n,
        forall|q: int| m <= q < places.len() ==> (#[trigger] places[q]) >= n,
        forall|c: int|
            0 <= c < n ==> (#[trigger] s[c] <==> exists|q: int|
                0 <= q < places.len() && #[trigger] places[q] == c),
    ensures
        count_ones(s, n) == m,
    decreases n,
{
    if n == 0 {
        if m > 0 {
            let first = places[0];
            assert(0 <= first && first < n);
        }
    } else if m > 0 && places[m - 1] == n - 1 {
        assert forall|q: int| 0 <= q < m - 1 implies 0 <= (#[trigger] places[q]) && places[q] < n
            - 1 by {
            assert(places[q] < places[m - 1]);
        }
        lemma_count_ones_listed(s, places, n - 1, m - 1);
        assert(s[n - 1]);
    } else {
        assert forall|q: int| 0 <= q < m implies 0 <= (#[trigger] places[q]) && places[q] < n
            - 1 by {
            if places[q] == n - 1 {
                if q < m - 1 {
                    assert(places[q] < places[m - 1]);
                    assert(places[m - 1] < n);
                }
            }
        }
        lemma_count_ones_listed(s, places, n - 1, m);
        assert forall|q: int| 0 <= q < places.len() implies #[trigger] places[q] != n - 1 by {}
        assert(!s[n - 1]);
    }
}

/// Two vectors that agree below `n` have the same count below `n`.
pub proof fn lemma_count_ones_ext(s: Seq<bool>, t: Seq<bool>, n: int)
    requires
        forall|k: int| 0 <= k < n ==> #[trigger] s[k] == t[k],
    ensures
        count_ones(s, n) == count_ones(t, n),
    decreases n,
{
    if n > 0 {
        lemma_count_ones_ext(s, t, n - 1);
    }
}

/// Hamming weight of a bit vector.
pub fn vector_weight(v: &Vec<bool>) -> (w: usize)
    ensures
        w == weight(v@),
{
    let mut w: usize = 0;
    let mut i: usize = 0;
    while i < v.len()
        invariant
            i <= v.len(),
            w == count_ones(v@, i as int),
            w <= i,
        decreases v.len() - i,
    {
        if v[i] {
            w = w + 1;
        }
        i = i + 1;
    }
    w
}

/// Changing one term of a sum changes the sum by the change of that term.
pub proof fn lemma_xor_sum_one_point(
    f: spec_fn(int) -> bool,
    g: spec_fn(int) -> bool,
    n: int,
    a: int,
)
    requires
        0 <= a < n,
        forall|k: int| 0 <= k < n && k != a ==> #[trigger] f(k) == g(k),
    ensures
        xor_sum(g, n) == (xor_sum(f, n) != (f(a) != g(a))),
{
    let d = |k: int| f(k) != g(k);
    lemma_xor_sum_add(f, g, d, n);
    lemma_xor_sum_single(d, n, a);
}

/// A sum over `n` terms that vanish outside the places listed by the
/// increasing sequence `places` is the sum over the listed places: with
/// `f(places[q]) == g(q)`, the sum of `f` below `n` is the sum of `g` below
/// `m`, `m` being the number of places below `n`.
pub proof fn lemma_xor_sum_scatter(
    f: spec_fn(int) -> bool,
    g: spec_fn(int) -> bool,
    places: Seq<int>,
    n: int,
    m: int,
)
    requires
        0 <= n,
        0 <= m <= places.len(),
        forall|i: int, j: int| 0 <= i < j < places.len() ==> places[i] < places[j],
        forall|q: int| 0 <= q < m ==> 0 <= (#[trigger] places[q]) && places[q] < n,
        forall|q: int| m <= q < places.len() ==> (#[trigger] places[q]) >= n,
        forall|q: int| 0 <= q < m ==> f(#[trigger] places[q]) == g(q),
        forall|c: int|
            0 <= c < n && (forall|q: int| 0 <= q < places.len() ==> #[trigger] places[q] != c)
                ==> !#[trigger] f(c),
    ensures
        xor_sum(f, n) == xor_sum(g, m),
    decreases n,
{
    if n == 0 {
        if m > 0 {
            let first = places[0];
            assert(0 <= first && first < n);
        }
    } else if m > 0 && places[m - 1] == n - 1 {
        assert forall|q: int| 0 <= q < m - 1 implies 0 <= (#[trigger] places[q]) && places[q] < n
            - 1 by {
            assert(places[q] < places[m - 1]);
        }
        lemma_xor_sum_scatter(f, g, places, n - 1, m - 1);
        assert(f(places[m - 1]) == g(m - 1));
    } else {
        assert forall|q: int| 0 <= q < m implies 0 <= (#[trigger] places[q]) && places[q] < n
            - 1 by {
            if places[q] == n - 1 {
                if q < m - 1 {
                    assert(places[q] < places[m - 1]);
                    assert(places[m - 1] < n);
                }
            }
        }
        lemma_xor_sum_scatter(f, g, places, n - 1, m);
        assert forall|q: int| 0 <= q < places.len() implies #[trigger] places[q] != n - 1 by {}
        assert(!f(n - 1));
    }
}

/// Two to the power `e`.
pub open spec fn pow2(e: nat) -> nat
    decreases e,
{
    if e == 0 {
        1
    } else {
        2 * pow2((e - 1) as nat)
    }
}

/// The number whose binary digits are the first `n` entries of `s`, entry
/// `i` being the digit of `2^i`.
pub open spec fn bits_value(s: Seq<bool>, n: int) -> nat
    decreases n,
{
    if n <= 0 {
        0
    } else {
        bits_value(s, n - 1) + if s[n - 1] {
            pow2((n - 1) as nat)
        } else {
            0
        }
    }
}

/// A number of `n` binary digits is below `2^n`.
pub proof fn lemma_bits_value_bound(s: Seq<bool>, n: int)
    requires
        0 <= n,
    ensures
        bits_value(s, n) < pow2(n as nat),
    decreases n,
{
    if n > 0 {
        lemma_bits_value_bound(s, n - 1);
    }
}

/// Bit `t` of byte `b`, counted from the least significant bit.
pub open spec fn byte_bit(b: u8, t: int) -> bool {
    b & (1u8 << (t as u8)) != 0
}

/// The bits of `data`, least significant bit of each byte first, cut or
/// padded with zeros to `n` bits.
pub open spec fn bytes_to_bits(data: Seq<u8>, n: nat) -> Seq<bool> {
    Seq::new(n, |i: int| i < 8 * data.len() && byte_bit(data[i / 8], i % 8))
}

/// Whether `bytes` holds exactly the bits of `bits`, least significant bit of
/// each byte first, in as few bytes as hold them, the spare bits zero.
pub open spec fn is_packing_of(bytes: Seq<u8>, bits: Seq<bool>) -> bool {
    &&& bytes.len() == (bits.len() + 7) / 8
    &&& forall|i: int|
        0 <= i < 8 * bytes.len() ==> byte_bit(#[trigger] bytes[i / 8], i % 8) == (i < bits.len()
            && bits[i])
}

/// A byte is determined by its eight bits.
pub proof fn lemma_byte_ext(a: u8, b: u8)
    requires
        forall|t: int| 0 <= t < 8 ==> byte_bit(a, t) == byte_bit(b, t),
    ensures
        a == b,
{
    assert(byte_bit(a, 0) == byte_bit(b, 0));
    assert(byte_bit(a, 1) == byte_bit(b, 1));
    assert(byte_bit(a, 2) == byte_bit(b, 2));
    assert(byte_bit(a, 3) == byte_bit(b, 3));
    assert(byte_bit(a, 4) == byte_bit(b, 4));
    assert(byte_bit(a, 5) == byte_bit(b, 5));
    assert(byte_bit(a, 6) == byte_bit(b, 6));
    assert(byte_bit(a, 7) == byte_bit(b, 7));
    assert(a == b) by (bit_vector)
        requires
            (a & (1u8 << 0u8) != 0) == (b & (1u8 << 0u8) != 0),
            (a & (1u8 << 1u8) != 0) == (b & (1u8 << 1u8) != 0),
            (a & (1u8 << 2u8) != 0) == (b & (1u8 << 2u8) != 0),
            (a & (1u8 << 3u8) != 0) == (b & (1u8 << 3u8) != 0),
            (a & (1u8 << 4u8) != 0) == (b & (1u8 << 4u8) != 0),
            (a & (1u8 << 5u8) != 0) == (b & (1u8 << 5u8) != 0),
            (a & (1u8 << 6u8) != 0) == (b & (1u8 << 6u8) != 0),
            (a & (1u8 << 7u8) != 0) == (b & (1u8 << 7u8) != 0),
    ;
}

/// Setting bit `t` of a byte sets that bit and leaves the others.
pub proof fn lemma_set_bit(x: u8, t: u8, u: u8)
    requires
        t < 8,
        u < 8,
    ensures
        ((x | (1u8 << t)) & (1u8 << u) != 0) == ((x & (1u8 << u) != 0) || u == t),
{
    assert(((x | (1u8 << t)) & (1u8 << u) != 0) == ((x & (1u8 << u) != 0) || u == t))
        by (bit_vector)
        requires
            t < 8,
            u < 8,
    ;
}

/// Bit `i` of a message held in bytes, least significant bit of each byte
/// first.
pub fn message_bit(data: &[u8], i: usize) -> (b: bool)
    requires
        i < 8 * data@.len(),
    ensures
        b == byte_bit(data@[i as int / 8], i as int % 8),
{
    assert(i >> 3 == i / 8) by (bit_vector);
    assert(i & 7 == i % 8) by (bit_vector);
    let byte = data[i >> 3];
    let t: u8 = (i & 7) as u8;
    byte & (1u8 << t) != 0
}

/// Packs bits into bytes, least significant bit of each byte first.
pub fn pack_bits(bits: &Vec<bool>) -> (bytes: Vec<u8>)
    ensures
        is_packing_of(bytes@, bits@),
{
    let n = bits.len();
    let len = n / 8 + if n % 8 != 0 {
        1usize
    } else {
        0usize
    };
    let mut bytes: Vec<u8> = vec![0u8; len];
    assert forall|i: int| 0 <= i < 8 * len implies !byte_bit(#[trigger] bytes[i / 8], i % 8) by {
        let t = (i % 8) as u8;
        assert(0u8 & (1u8 << t) == 0) by (bit_vector);
    }
    let mut col: usize = 0;
    while col < n
        invariant
            col <= n,
            n == bits.len(),
            len == (n + 7) / 8,
            bytes.len() == len,
            forall|i: int|
                0 <= i < 8 * len ==> byte_bit(#[trigger] bytes[i / 8], i % 8) == (i < col
                    && bits[i]),
        decreases n - col,
    {
        if bits[col] {
            assert(col >> 3 == col / 8) by (bit_vector);
            assert(col & 7 == col % 8) by (bit_vector);
            let q = col >> 3;
            let t: u8 = (col & 7) as u8;
            let old_byte = bytes[q];
            let ghost before = bytes@;
            bytes[q] = old_byte | (1u8 << t);
            assert forall|i: int| 0 <= i < 8 * len implies byte_bit(#[trigger] bytes[i / 8], i % 8)
                == (i < col + 1 && bits[i]) by {
                assert(byte_bit(before[i / 8], i % 8) == (i < col && bits[i]));
                if i / 8 == q {
                    lemma_set_bit(old_byte, t, (i % 8) as u8);
                }
            }
        }
        col = col + 1;
    }
    bytes
}

} // verus!
