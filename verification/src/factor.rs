//! Factorizer: decomposes a transform length into its canonical ascending
//! sequence of prime radices, and decides when a length must take the
//! convolution fallback instead of plain butterfly stages.

use vstd::prelude::*;
use vstd::arithmetic::div_mod::{
    lemma_div_is_strictly_smaller, lemma_div_pos_is_pos, lemma_fundamental_div_mod,
    lemma_mod_multiples_basic, lemma_mod_self_0,
};
use vstd::arithmetic::mul::{lemma_mul_is_associative, lemma_mul_is_commutative};

verus! {

/// Primes up to this bound get dedicated butterfly stages; a larger prime
/// factor sends the whole length down the convolution fallback.
pub const SMALL_RADIX_MAX: u64 = 13;

/// `d` divides `n`.
pub open spec fn divides(d: int, n: int) -> bool {
    d != 0 && n % d == 0
}

/// `p` has no divisor strictly between 1 and itself.
pub open spec fn is_prime(p: int) -> bool {
    p >= 2 && forall|d: int| 2 <= d < p ==> !divides(d, p)
}

/// Least divisor of `n` that is at least `c`; `n` itself if no smaller one
/// exists.
pub open spec fn least_divisor_from(n: int, c: int) -> int
    decreases n - c,
{
    if c >= n || c < 1 {
        n
    } else if n % c == 0 {
        c
    } else {
        least_divisor_from(n, c + 1)
    }
}

/// Least prime factor of `n` (meaningful for `n >= 2`).
pub open spec fn least_factor(n: int) -> int {
    least_divisor_from(n, 2)
}

proof fn lemma_ldf_props(n: int, c: int)
    requires
        2 <= c <= n,
    ensures
        c <= least_divisor_from(n, c) <= n,
        divides(least_divisor_from(n, c), n),
        forall|d: int| c <= d < least_divisor_from(n, c) ==> !divides(d, n),
    decreases n - c,
{
    if c >= n {
        lemma_mod_self_0(n);
    } else if n % c == 0 {
    } else {
        lemma_ldf_props(n, c + 1);
    }
}

/// The least factor of `n` divides `n`, is prime, and nothing smaller
/// divides `n`.
pub proof fn lemma_least_factor(n: int)
    requires
        n >= 2,
    ensures
        2 <= least_factor(n) <= n,
        divides(least_factor(n), n),
        is_prime(least_factor(n)),
        forall|d: int| 2 <= d < least_factor(n) ==> !divides(d, n),
{
    lemma_ldf_props(n, 2);
    let p = least_factor(n);
    assert forall|d: int| 2 <= d < p implies !divides(d, p) by {
        if divides(d, p) {
            lemma_divides_transitive(d, p, n);
        }
    }
}

/// If `d` divides `m` and `m` divides `n`, then `d` divides `n`.
pub proof fn lemma_divides_transitive(d: int, m: int, n: int)
    requires
        d > 0,
        m > 0,
        divides(d, m),
        divides(m, n),
    ensures
        divides(d, n),
{
    lemma_fundamental_div_mod(m, d);
    lemma_fundamental_div_mod(n, m);
    let k1 = m / d;
    let k2 = n / m;
    assert(m == d * k1);
    assert(n == m * k2);
    lemma_mul_is_associative(d, k1, k2);
    assert(n == d * (k1 * k2));
    lemma_mul_is_commutative(d, k1 * k2);
    lemma_mod_multiples_basic(k1 * k2, d);
}

/// Canonical factorization: the ascending sequence of prime factors of `n`,
/// empty for `n < 2`.
pub open spec fn factor_seq(n: int) -> Seq<int>
    decreases n,
    when n >= 0
    via factor_seq_decreases
{
    if n < 2 {
        Seq::empty()
    } else {
        seq![least_factor(n)] + factor_seq(n / least_factor(n))
    }
}

#[via_fn]
proof fn factor_seq_decreases(n: int) {
    if n >= 2 {
        lemma_least_factor(n);
        lemma_div_is_strictly_smaller(n, least_factor(n));
        lemma_div_pos_is_pos(n, least_factor(n));
    }
}

/// Product of a sequence of integers.
pub open spec fn prod(s: Seq<int>) -> int
    decreases s.len(),
{
    if s.len() == 0 {
        1
    } else {
        s[0] * prod(s.subrange(1, s.len() as int))
    }
}

/// Prepending one entry multiplies the product by it.
pub proof fn lemma_prod_cons(x: int, s: Seq<int>)
    ensures
        prod(seq![x] + s) == x * prod(s),
{
    let t = seq![x] + s;
    assert(t.subrange(1, t.len() as int) =~= s);
}

proof fn lemma_prod_push(s: Seq<int>, x: int)
    ensures
        prod(s.push(x)) == prod(s) * x,
    decreases s.len(),
{
    if s.len() == 0 {
        assert(s.push(x) =~= seq![x]);
        assert(seq![x].subrange(1, 1) =~= Seq::<int>::empty());
        assert(prod(seq![x]) == x * prod(seq![x].subrange(1, 1)));
    } else {
        let tail = s.subrange(1, s.len() as int);
        assert(s.push(x).subrange(1, s.len() as int + 1) =~= tail.push(x));
        lemma_prod_push(tail, x);
        assert(s.push(x).len() != 0);
        assert(s.push(x)[0] == s[0]);
        assert(prod(s.push(x)) == s[0] * prod(tail.push(x)));
        assert(prod(s) == s[0] * prod(tail));
        lemma_mul_is_associative(s[0], prod(tail), x);
    }
}

/// A product of entries that are all at least 1 is at least 1.
pub proof fn lemma_prod_pos(s: Seq<int>)
    requires
        forall|i: int| 0 <= i < s.len() ==> s[i] >= 1,
    ensures
        prod(s) >= 1,
    decreases s.len(),
{
    if s.len() > 0 {
        let tail = s.subrange(1, s.len() as int);
        lemma_prod_pos(tail);
        assert(s[0] * prod(tail) >= 1) by (nonlinear_arith)
            requires
                s[0] >= 1,
                prod(tail) >= 1,
        ;
    }
}

/// Appending one entry multiplies a prefix product by it.
pub proof fn lemma_prod_take_push(s: Seq<int>, i: int)
    requires
        0 <= i < s.len(),
    ensures
        prod(s.take(i + 1)) == prod(s.take(i)) * s[i],
{
    assert(s.take(i + 1) =~= s.take(i).push(s[i]));
    lemma_prod_push(s.take(i), s[i]);
}

/// A suffix product of entries that are all at least 1 is at least 1.
pub proof fn lemma_prod_skip_pos(s: Seq<int>, i: int)
    requires
        0 <= i <= s.len(),
        forall|j: int| 0 <= j < s.len() ==> s[j] >= 1,
    ensures
        prod(s.skip(i)) >= 1,
{
    assert forall|k: int| 0 <= k < s.skip(i).len() implies s.skip(i)[k] >= 1 by {
        assert(s.skip(i)[k] == s[i + k]);
    }
    lemma_prod_pos(s.skip(i));
}

/// Splitting a sequence splits its product.
pub proof fn lemma_prod_split(s: Seq<int>, i: int)
    requires
        0 <= i <= s.len(),
    ensures
        prod(s) == prod(s.take(i)) * prod(s.skip(i)),
    decreases i,
{
    if i == 0 {
        assert(s.take(0) =~= Seq::<int>::empty());
        assert(s.skip(0) =~= s);
    } else {
        lemma_prod_split(s, i - 1);
        assert(s.skip(i - 1) =~= seq![s[i - 1]] + s.skip(i));
        lemma_prod_cons(s[i - 1], s.skip(i));
        assert(s.take(i) =~= s.take(i - 1).push(s[i - 1]));
        lemma_prod_push(s.take(i - 1), s[i - 1]);
        lemma_mul_is_associative(prod(s.take(i - 1)), s[i - 1], prod(s.skip(i)));
    }
}

/// The canonical factorization multiplies back to `n`; every entry is a
/// prime divisor of `n` between 2 and `n`; and the entries ascend.
pub proof fn lemma_factor_seq_props(n: int)
    requires
        n >= 1,
    ensures
        prod(factor_seq(n)) == n,
        forall|i: int| 0 <= i < factor_seq(n).len() ==> is_prime(#[trigger] factor_seq(n)[i]),
        forall|i: int| 0 <= i < factor_seq(n).len() ==> 2 <= #[trigger] factor_seq(n)[i] <= n,
        forall|i: int| 0 <= i < factor_seq(n).len() ==> divides(#[trigger] factor_seq(n)[i], n),
        forall|i: int, j: int|
            0 <= i <= j < factor_seq(n).len() ==> #[trigger] factor_seq(n)[i]
                <= #[trigger] factor_seq(n)[j],
    decreases n,
{
    if n < 2 {
    } else {
        let p = least_factor(n);
        lemma_least_factor(n);
        let m = n / p;
        lemma_fundamental_div_mod(n, p);
        assert(n == p * m);
        lemma_div_pos_is_pos(n, p);
        lemma_div_is_strictly_smaller(n, p);
        assert(m >= 1) by (nonlinear_arith)
            requires
                n == p * m,
                n >= 2,
                p >= 2,
                m >= 0,
        ;
        lemma_factor_seq_props(m);
        let fs = factor_seq(n);
        let rest = factor_seq(m);
        assert(fs == seq![p] + rest);
        lemma_prod_cons(p, rest);
        // m divides n, so divisors of m divide n
        lemma_mul_is_commutative(p, m);
        lemma_mod_multiples_basic(p, m);
        assert(divides(m, n));
        assert forall|i: int| 0 <= i < rest.len() implies divides(#[trigger] rest[i], n)
            && rest[i] <= n && p <= rest[i] by {
            lemma_divides_transitive(rest[i], m, n);
            // minimality of p rules out rest[i] < p
            assert(rest[i] >= p);
        }
    }
}

/// Finds the least prime factor of `n` by trial division.
pub fn smallest_prime_factor(n: u64) -> (r: u64)
    requires
        n >= 2,
    ensures
        r == least_factor(n as int),
        2 <= r <= n,
        divides(r as int, n as int),
        is_prime(r as int),
{
    proof {
        lemma_least_factor(n as int);
    }
    let mut c: u64 = 2;
    while n % c != 0
        invariant
            2 <= c <= n,
            n >= 2,
            least_factor(n as int) == least_divisor_from(n as int, c as int),
        decreases n - c,
    {
        proof {
            lemma_mod_self_0(n as int);
            assert(c < n);
        }
        c = c + 1;
    }
    c
}

/// Decomposes `n` into its canonical ascending sequence of prime radices.
pub fn factorize(n: u64) -> (r: Vec<u64>)
    requires
        n >= 1,
    ensures
        r@.map_values(|x: u64| x as int) == factor_seq(n as int),
        r@.len() == factor_seq(n as int).len(),
        forall|i: int| 0 <= i < r@.len() ==> r@[i] == factor_seq(n as int)[i],
{
    let mut facs: Vec<u64> = Vec::new();
    let mut m: u64 = n;
    proof {
        assert(facs@.map_values(|x: u64| x as int) + factor_seq(m as int)
            =~= factor_seq(n as int));
    }
    while m > 1
        invariant
            1 <= m <= n,
            facs@.map_values(|x: u64| x as int) + factor_seq(m as int) == factor_seq(n as int),
        decreases m,
    {
        let p = smallest_prime_factor(m);
        let next = m / p;
        proof {
            lemma_div_is_strictly_smaller(m as int, p as int);
            lemma_div_pos_is_pos(m as int, p as int);
            lemma_fundamental_div_mod(m as int, p as int);
            assert(m as int % p as int == 0);
            assert(next >= 1) by (nonlinear_arith)
                requires
                    m as int == p as int * next as int,
                    m >= 2,
                    p >= 2,
                    next >= 0,
            ;
            assert(factor_seq(m as int) == seq![p as int] + factor_seq(next as int));
            assert(facs@.push(p).map_values(|x: u64| x as int) + factor_seq(next as int)
                =~= facs@.map_values(|x: u64| x as int) + factor_seq(m as int));
        }
        facs.push(p);
        m = next;
    }
    proof {
        assert(factor_seq(m as int) =~= Seq::<int>::empty());
        assert(facs@.map_values(|x: u64| x as int) + factor_seq(m as int)
            =~= facs@.map_values(|x: u64| x as int));
        assert forall|i: int| 0 <= i < facs@.len() implies facs@[i]
            == factor_seq(n as int)[i] by {
            assert(facs@.map_values(|x: u64| x as int)[i] == facs@[i] as int);
        }
    }
    facs
}

/// The fallback is taken exactly when some canonical radix of `n` exceeds
/// the largest butterfly size.
pub open spec fn needs_fallback(n: int) -> bool {
    exists|i: int| 0 <= i < factor_seq(n).len() && factor_seq(n)[i] > SMALL_RADIX_MAX
}

/// Decides whether `n` has a prime factor too large for a butterfly stage.
pub fn has_large_prime_factor(n: u64) -> (r: bool)
    requires
        n >= 1,
    ensures
        r == needs_fallback(n as int),
{
    let facs = factorize(n);
    let mut i: usize = 0;
    let mut found = false;
    while i < facs.len()
        invariant
            0 <= i <= facs@.len(),
            facs@.len() == factor_seq(n as int).len(),
            forall|j: int| 0 <= j < facs@.len() ==> facs@[j] == factor_seq(n as int)[j],
            found == exists|j: int|
                0 <= j < i && #[trigger] factor_seq(n as int)[j] > SMALL_RADIX_MAX,
        decreases facs@.len() - i,
    {
        if facs[i] > SMALL_RADIX_MAX {
            proof {
                assert(factor_seq(n as int)[i as int] > SMALL_RADIX_MAX);
            }
            found = true;
        }
        i = i + 1;
    }
    found
}

/// Two to the power `e`.
pub open spec fn two_pow(e: nat) -> nat
    decreases e,
{
    if e == 0 {
        1
    } else {
        2 * two_pow((e - 1) as nat)
    }
}

/// `v` is a power of two.
pub open spec fn is_pow2_val(v: int) -> bool {
    exists|e: nat| v == two_pow(e)
}

proof fn lemma_two_pow_pos(e: nat)
    ensures
        two_pow(e) >= 1,
    decreases e,
{
    if e > 0 {
        lemma_two_pow_pos((e - 1) as nat);
    }
}

proof fn lemma_two_pow_mono(a: nat, b: nat)
    requires
        a <= b,
    ensures
        two_pow(a) <= two_pow(b),
    decreases b,
{
    if a < b {
        lemma_two_pow_mono(a, (b - 1) as nat);
        lemma_two_pow_pos((b - 1) as nat);
    }
}

/// In any half-open doubling window `[m, 2m)` there is at most one power of
/// two.
pub proof fn lemma_pow2_cover_unique(v1: int, v2: int, m: int)
    requires
        m >= 1,
        is_pow2_val(v1),
        is_pow2_val(v2),
        m <= v1 < 2 * m,
        m <= v2 < 2 * m,
    ensures
        v1 == v2,
{
    let e1 = choose|e: nat| v1 == two_pow(e);
    let e2 = choose|e: nat| v2 == two_pow(e);
    if e1 < e2 {
        lemma_two_pow_mono(e1 + 1, e2);
        assert(two_pow(e1 + 1) == 2 * two_pow(e1));
    } else if e2 < e1 {
        lemma_two_pow_mono(e2 + 1, e1);
        assert(two_pow(e2 + 1) == 2 * two_pow(e2));
    }
}

/// Smallest power of two that is at least `m`.
pub fn next_pow2_at_least(m: u64) -> (r: u64)
    requires
        1 <= m <= 0x20000000,
    ensures
        is_pow2_val(r as int),
        m <= r < 2 * m,
{
    let mut p: u64 = 1;
    let ghost mut e: nat = 0;
    proof {
        assert(p == two_pow(e));
    }
    while p < m
        invariant
            1 <= p,
            m <= 0x20000000,
            p == two_pow(e),
            e == 0 || two_pow((e - 1) as nat) < m,
            p < 2 * m,
        decreases 2 * m - p,
    {
        p = p * 2;
        proof {
            e = e + 1;
            assert(two_pow(e) == 2 * two_pow((e - 1) as nat));
        }
    }
    proof {
        if e > 0 {
            assert(p == 2 * two_pow((e - 1) as nat));
        }
        assert(is_pow2_val(p as int));
    }
    p
}

} // verus!
