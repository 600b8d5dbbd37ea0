//! Input reorder for decimation-in-time execution.  A stage list walks the
//! buffer through a permuted view: index `i` starts from slot `rev(i)`,
//! the mixed-radix digit reversal of `i` in the length's canonical radix
//! decomposition (plain bit reversal when every radix is 2).

use vstd::prelude::*;
use vstd::arithmetic::div_mod::{
    lemma_div_pos_is_pos, lemma_fundamental_div_mod, lemma_multiply_divide_lt,
};
use crate::factor::{
    factor_seq, factorize, lemma_factor_seq_props, lemma_prod_cons, lemma_prod_skip_pos,
    lemma_prod_split, lemma_prod_take_push, prod,
};
use crate::MAX_LEN;

verus! {

/// Value of `x`'s digits in the mixed-radix system `fs`, read in reverse:
/// the least significant digit of `x` becomes the most significant digit
/// of the result.
pub open spec fn digit_rev(fs: Seq<int>, x: int) -> int
    decreases fs.len(),
{
    if fs.len() == 0 {
        0
    } else {
        (x % fs[0]) * prod(fs.skip(1)) + digit_rev(fs.skip(1), x / fs[0])
    }
}

/// With radices of at least 1, a reversed index stays inside the range of
/// the system.
pub proof fn lemma_digit_rev_range(fs: Seq<int>, x: int)
    requires
        x >= 0,
        forall|i: int| 0 <= i < fs.len() ==> fs[i] >= 1,
    ensures
        0 <= digit_rev(fs, x) < prod(fs),
    decreases fs.len(),
{
    if fs.len() == 0 {
    } else {
        let r = fs[0];
        let rest = fs.skip(1);
        assert forall|i: int| 0 <= i < rest.len() implies rest[i] >= 1 by {
            assert(rest[i] == fs[i + 1]);
        }
        lemma_div_pos_is_pos(x, r);
        lemma_digit_rev_range(rest, x / r);
        assert(fs =~= seq![r] + rest);
        lemma_prod_cons(r, rest);
        assert((x % r) * prod(rest) + digit_rev(rest, x / r) < r * prod(rest))
            by (nonlinear_arith)
            requires
                0 <= x % r < r,
                0 <= digit_rev(rest, x / r) < prod(rest),
        ;
        assert((x % r) * prod(rest) >= 0) by (nonlinear_arith)
            requires
                x % r >= 0,
                prod(rest) >= 1,
        ;
    }
}

/// Digit reversal is injective on the range of the system.
pub proof fn lemma_digit_rev_injective(fs: Seq<int>, x1: int, x2: int)
    requires
        forall|i: int| 0 <= i < fs.len() ==> fs[i] >= 1,
        0 <= x1 < prod(fs),
        0 <= x2 < prod(fs),
        digit_rev(fs, x1) == digit_rev(fs, x2),
    ensures
        x1 == x2,
    decreases fs.len(),
{
    if fs.len() == 0 {
    } else {
        let r = fs[0];
        let rest = fs.skip(1);
        assert forall|i: int| 0 <= i < rest.len() implies rest[i] >= 1 by {
            assert(rest[i] == fs[i + 1]);
        }
        assert(fs =~= seq![r] + rest);
        lemma_prod_cons(r, rest);
        let pp = prod(rest);
        lemma_multiply_divide_lt(x1, r, pp);
        lemma_multiply_divide_lt(x2, r, pp);
        lemma_div_pos_is_pos(x1, r);
        lemma_div_pos_is_pos(x2, r);
        lemma_digit_rev_range(rest, x1 / r);
        lemma_digit_rev_range(rest, x2 / r);
        let a1 = x1 % r;
        let a2 = x2 % r;
        let b1 = digit_rev(rest, x1 / r);
        let b2 = digit_rev(rest, x2 / r);
        assert(a1 == a2 && b1 == b2) by (nonlinear_arith)
            requires
                a1 * pp + b1 == a2 * pp + b2,
                0 <= b1 < pp,
                0 <= b2 < pp,
                0 <= a1,
                0 <= a2,
        ;
        lemma_digit_rev_injective(rest, x1 / r, x2 / r);
        lemma_fundamental_div_mod(x1, r);
        lemma_fundamental_div_mod(x2, r);
    }
}

/// The reorder of a stage list never collides: distinct indices of the
/// run length land in distinct slots, and every slot is in range.  With
/// the range pinned, the reorder is a true permutation of the buffer.
pub proof fn lemma_reorder_bijective(m: int, i1: int, i2: int)
    requires
        m >= 1,
        0 <= i1 < m,
        0 <= i2 < m,
        i1 != i2,
    ensures
        0 <= digit_rev(factor_seq(m), i1) < m,
        0 <= digit_rev(factor_seq(m), i2) < m,
        digit_rev(factor_seq(m), i1) != digit_rev(factor_seq(m), i2),
{
    lemma_factor_seq_props(m);
    let fs = factor_seq(m);
    lemma_digit_rev_range(fs, i1);
    lemma_digit_rev_range(fs, i2);
    if digit_rev(fs, i1) == digit_rev(fs, i2) {
        lemma_digit_rev_injective(fs, i1, i2);
    }
}

fn digit_rev_one(x: usize, facs: &Vec<u64>, Ghost(fs): Ghost<Seq<int>>, Ghost(m): Ghost<int>) -> (r:
    usize)
    requires
        facs@.len() == fs.len(),
        forall|j: int| 0 <= j < fs.len() ==> facs@[j] == fs[j],
        forall|j: int| 0 <= j < fs.len() ==> 2 <= #[trigger] fs[j] <= m,
        prod(fs) == m,
        1 <= m <= 4 * MAX_LEN,
        x < m,
    ensures
        r == digit_rev(fs, x as int),
{
    let mut out: usize = 0;
    let mut cur: usize = x;
    let mut j: usize = 0;
    proof {
        assert(fs.skip(0) =~= fs);
        assert(fs.take(0) =~= Seq::<int>::empty());
    }
    while j < facs.len()
        invariant
            j <= fs.len(),
            facs@.len() == fs.len(),
            forall|k: int| 0 <= k < fs.len() ==> facs@[k] == fs[k],
            forall|k: int| 0 <= k < fs.len() ==> 2 <= #[trigger] fs[k] <= m,
            prod(fs) == m,
            1 <= m <= 4 * MAX_LEN,
            out < prod(fs.take(j as int)),
            prod(fs.take(j as int)) <= m,
            digit_rev(fs, x as int) == out * prod(fs.skip(j as int))
                + digit_rev(fs.skip(j as int), cur as int),
        decreases fs.len() - j,
    {
        let r = facs[j] as usize;
        let ghost s = fs.skip(j as int);
        let ghost s1 = fs.skip(j as int + 1);
        let ghost pt = prod(fs.take(j as int));
        proof {
            assert(s =~= seq![fs[j as int]] + s1);
            lemma_prod_cons(fs[j as int], s1);
            assert(s.skip(1) =~= s1);
            assert(s[0] == fs[j as int]);
            // unfolding digit_rev at the head of the suffix
            assert(digit_rev(s, cur as int) == (cur as int % s[0]) * prod(s1)
                + digit_rev(s1, cur as int / s[0]));
            // the new accumulator absorbs the head digit
            assert(out * (s[0] * prod(s1)) + ((cur as int % s[0]) * prod(s1)
                + digit_rev(s1, cur as int / s[0])) == (out * s[0] + cur as int % s[0])
                * prod(s1) + digit_rev(s1, cur as int / s[0])) by (nonlinear_arith);
            // bounds: the accumulator stays under the grown prefix product
            lemma_prod_take_push(fs, j as int);
            assert(out * s[0] + cur as int % s[0] < pt * s[0]) by (nonlinear_arith)
                requires
                    out < pt,
                    0 <= cur as int % s[0] < s[0],
                    0 <= out,
                    1 <= pt,
            ;
            lemma_prod_split(fs, j as int + 1);
            assert forall|k: int| 0 <= k < fs.len() implies fs[k] >= 1 by {}
            lemma_prod_skip_pos(fs, j as int + 1);
            assert(prod(fs.take(j as int + 1)) <= m) by (nonlinear_arith)
                requires
                    m == prod(fs.take(j as int + 1)) * prod(fs.skip(j as int + 1)),
                    prod(fs.skip(j as int + 1)) >= 1,
                    prod(fs.take(j as int + 1)) >= 1,
            ;
            assert(prod(fs.take(j as int + 1)) >= 1) by (nonlinear_arith)
                requires
                    prod(fs.take(j as int + 1)) == pt * s[0],
                    pt >= 1,
                    s[0] >= 2,
            ;
        }
        out = out * r + cur % r;
        cur = cur / r;
        j = j + 1;
    }
    proof {
        assert(fs.skip(fs.len() as int) =~= Seq::<int>::empty());
        assert(fs.take(fs.len() as int) =~= fs);
    }
    out
}

/// Builds the reorder table for a stage list that runs on length `m`:
/// entry `i` is the digit reversal of `i` in `m`'s canonical radix
/// decomposition.  By `lemma_reorder_bijective` the table is a
/// permutation of `0 .. m`.
pub fn digit_reversal_table(m: usize) -> (perm: Vec<usize>)
    requires
        1 <= m <= 4 * MAX_LEN,
    ensures
        perm@.len() == m,
        forall|i: int| 0 <= i < m ==> #[trigger] perm@[i] == digit_rev(factor_seq(m as int), i),
{
    let facs = factorize(m as u64);
    let ghost fs = factor_seq(m as int);
    proof {
        lemma_factor_seq_props(m as int);
    }
    let mut perm: Vec<usize> = Vec::new();
    let mut i: usize = 0;
    while i < m
        invariant
            i <= m,
            1 <= m <= 4 * MAX_LEN,
            fs == factor_seq(m as int),
            facs@.len() == fs.len(),
            forall|j: int| 0 <= j < fs.len() ==> facs@[j] == fs[j],
            forall|j: int| 0 <= j < fs.len() ==> 2 <= #[trigger] fs[j] <= m,
            prod(fs) == m,
            perm@.len() == i,
            forall|k: int| 0 <= k < i ==> #[trigger] perm@[k] == digit_rev(fs, k),
        decreases m - i,
    {
        let rev = digit_rev_one(i, &facs, Ghost(fs), Ghost(m as int));
        perm.push(rev);
        i = i + 1;
    }
    perm
}

} // verus!
