//! Plan builder: turns a factorized length into an immutable execution
//! plan.  A plan is a list of butterfly stages with precomputed
//! twiddle-angle tables; lengths with a prime factor too large for a
//! butterfly instead get a chirp table and stages for a padded
//! power-of-two length (the convolution fallback).
//!
//! Angles are kept as exact rational turns `num/den`: the twiddle at entry
//! `(num, den)` is the root of unity `exp(sign * 2*pi*i * num/den)`, where
//! the sign is negative for a forward plan and positive for an inverse
//! plan.  The executor that interprets a plan applies that convention.

use vstd::prelude::*;
use vstd::arithmetic::div_mod::lemma_div_nonincreasing;
use vstd::arithmetic::mul::lemma_mul_upper_bound;
use crate::errors::FftError;
use crate::factor::{
    factor_seq, factorize, has_large_prime_factor, is_pow2_val, lemma_factor_seq_props,
    lemma_pow2_cover_unique, lemma_prod_skip_pos, lemma_prod_split, lemma_prod_take_push,
    needs_fallback, next_pow2_at_least, prod,
};
use crate::reorder::{digit_rev, digit_reversal_table};
use crate::MAX_LEN;

verus! {

/// One twiddle factor, stored as the exact rational turn `num/den`.
#[derive(Clone, Copy, Debug, PartialEq)]
pub struct Twiddle {
    pub num: u64,
    pub den: u64,
}

/// One butterfly pass: combines `radix` interleaved sub-transforms into
/// transforms of length `len`, multiplying by the table's twiddles.
#[derive(Debug, PartialEq)]
pub struct Stage {
    pub radix: usize,
    pub len: usize,
    pub twiddles: Vec<Twiddle>,
}

/// Chirp table for the convolution fallback: entry `k` names the angle of
/// the chirp element `exp(sign * pi * i * k^2 / n)`, kept exactly as
/// `k^2 mod 2n` over the denominator `2n`.
#[derive(Debug, PartialEq)]
pub struct ChirpTable {
    pub pad: usize,
    pub squares: Vec<u64>,
}

/// The immutable, reusable description of one transform: fixed length,
/// fixed direction, and the precomputed tables every run reads.  `perm`
/// is the input reorder of the stage list: the permuted view execution
/// starts from.
#[derive(Debug, PartialEq)]
pub struct Plan {
    pub n: usize,
    pub inverse: bool,
    pub stages: Vec<Stage>,
    pub perm: Vec<usize>,
    pub chirp: Option<ChirpTable>,
}

/// Entry `i` of a radix-`r` stage of length `l` carries the turn
/// `((i/r) * (i%r)) / l`: position `i/r` of sub-transform `i%r`.
pub open spec fn twiddle_ok(t: Twiddle, i: int, r: int, l: int) -> bool {
    &&& t.num == ((i / r) * (i % r)) % l
    &&& t.den == l
}

pub open spec fn stage_wf(s: Stage, r: int, l: int) -> bool {
    &&& s.radix == r
    &&& s.len == l
    &&& s.twiddles@.len() == l
    &&& forall|i: int| 0 <= i < l ==> twiddle_ok(#[trigger] s.twiddles@[i], i, r, l)
}

/// The stages for length `m` follow its canonical radix decomposition:
/// stage `i` merges into length `r_0 * ... * r_i`.
pub open spec fn stages_wf(stages: Seq<Stage>, m: int) -> bool {
    &&& stages.len() == factor_seq(m).len()
    &&& forall|i: int|
        0 <= i < stages.len() ==> stage_wf(
            #[trigger] stages[i],
            factor_seq(m)[i],
            prod(factor_seq(m).take(i + 1)),
        )
}

pub open spec fn chirp_wf(c: ChirpTable, n: int) -> bool {
    &&& is_pow2_val(c.pad as int)
    &&& 2 * n - 1 <= c.pad < 2 * (2 * n - 1)
    &&& c.squares@.len() == n
    &&& forall|k: int| 0 <= k < n ==> #[trigger] c.squares@[k] == (k * k) % (2 * n)
}

/// The reorder table holds the digit reversal of every index of the run
/// length `m`.
pub open spec fn perm_wf(perm: Seq<usize>, m: int) -> bool {
    &&& perm.len() == m
    &&& forall|i: int| 0 <= i < m ==> #[trigger] perm[i] == digit_rev(factor_seq(m), i)
}

/// A well-formed plan: the chirp path is taken exactly when the length
/// needs the fallback, and the stage list and reorder table decompose the
/// length they run on (the padded length on the chirp path).
pub open spec fn plan_wf(p: Plan) -> bool {
    &&& 1 <= p.n <= MAX_LEN
    &&& match p.chirp {
        Some(c) => {
            &&& needs_fallback(p.n as int)
            &&& chirp_wf(c, p.n as int)
            &&& stages_wf(p.stages@, c.pad as int)
            &&& perm_wf(p.perm@, c.pad as int)
        },
        None => {
            &&& !needs_fallback(p.n as int)
            &&& stages_wf(p.stages@, p.n as int)
            &&& perm_wf(p.perm@, p.n as int)
        },
    }
}

fn build_stage(radix: usize, len: usize) -> (s: Stage)
    requires
        2 <= radix,
        radix <= len,
        len <= 4 * MAX_LEN,
    ensures
        stage_wf(s, radix as int, len as int),
{
    let mut tw: Vec<Twiddle> = Vec::new();
    let mut i: usize = 0;
    while i < len
        invariant
            i <= len,
            2 <= radix <= len,
            len <= 4 * MAX_LEN,
            tw@.len() == i,
            forall|k: int| 0 <= k < i ==> twiddle_ok(#[trigger] tw@[k], k, radix as int, len as int),
        decreases len - i,
    {
        let q: u64 = (i / radix) as u64;
        let rem: u64 = (i % radix) as u64;
        proof {
            lemma_div_nonincreasing(i as int, radix as int);
            lemma_mul_upper_bound(q as int, len as int, rem as int, len as int);
            assert(len as int * len as int <= 0x400000 * 0x400000) by (nonlinear_arith)
                requires
                    0 <= len as int <= 0x400000,
            ;
        }
        let num: u64 = (q * rem) % (len as u64);
        tw.push(Twiddle { num, den: len as u64 });
        i = i + 1;
    }
    Stage { radix, len, twiddles: tw }
}

fn build_stages(m: usize) -> (r: Vec<Stage>)
    requires
        1 <= m <= 4 * MAX_LEN,
    ensures
        stages_wf(r@, m as int),
{
    let facs = factorize(m as u64);
    let ghost fs = factor_seq(m as int);
    proof {
        lemma_factor_seq_props(m as int);
    }
    let mut stages: Vec<Stage> = Vec::new();
    let mut cum: usize = 1;
    let mut i: usize = 0;
    proof {
        assert(fs.take(0) =~= Seq::<int>::empty());
    }
    while i < facs.len()
        invariant
            i <= facs@.len(),
            facs@.len() == fs.len(),
            forall|j: int| 0 <= j < fs.len() ==> facs@[j] == fs[j],
            forall|j: int| 0 <= j < fs.len() ==> 2 <= #[trigger] fs[j] <= m,
            prod(fs) == m,
            1 <= m <= 4 * MAX_LEN,
            fs == factor_seq(m as int),
            cum == prod(fs.take(i as int)),
            1 <= cum <= m,
            stages@.len() == i,
            forall|j: int|
                0 <= j < i ==> stage_wf(#[trigger] stages@[j], fs[j], prod(fs.take(j + 1))),
        decreases facs@.len() - i,
    {
        let radix = facs[i] as usize;
        proof {
            assert(fs.take(i as int + 1) =~= fs.take(i as int).push(fs[i as int]));
            crate::factor::lemma_prod_take_push(fs, i as int);
            lemma_prod_split(fs, i as int + 1);
            crate::factor::lemma_prod_skip_pos(fs, i as int + 1);
            assert(cum * radix <= m) by (nonlinear_arith)
                requires
                    m == prod(fs.take(i as int + 1)) * prod(fs.skip(i as int + 1)),
                    prod(fs.take(i as int + 1)) == cum * radix,
                    prod(fs.skip(i as int + 1)) >= 1,
                    cum >= 1,
                    radix >= 2,
            ;
            assert(radix <= cum * radix) by (nonlinear_arith)
                requires
                    cum >= 1,
                    radix >= 2,
            ;
        }
        let newcum = cum * radix;
        let st = build_stage(radix, newcum);
        stages.push(st);
        cum = newcum;
        i = i + 1;
    }
    proof {
        assert(fs.take(fs.len() as int) =~= fs);
    }
    stages
}

fn build_chirp(n: usize) -> (c: ChirpTable)
    requires
        1 <= n <= MAX_LEN,
    ensures
        chirp_wf(c, n as int),
{
    let pad64 = next_pow2_at_least((2 * n - 1) as u64);
    let pad = pad64 as usize;
    let mut squares: Vec<u64> = Vec::new();
    let mut k: usize = 0;
    while k < n
        invariant
            k <= n,
            1 <= n <= MAX_LEN,
            squares@.len() == k,
            forall|j: int| 0 <= j < k ==> #[trigger] squares@[j] == (j * j) % (2 * n),
        decreases n - k,
    {
        proof {
            lemma_mul_upper_bound(k as int, n as int, k as int, n as int);
            assert(n as int * n as int <= 0x100000 * 0x100000) by (nonlinear_arith)
                requires
                    0 <= n as int <= 0x100000,
            ;
        }
        let kk: u64 = (k as u64) * (k as u64);
        squares.push(kk % (2 * n as u64));
        k = k + 1;
    }
    ChirpTable { pad, squares }
}

/// Builds the immutable plan for one (length, direction) pair.
///
/// Succeeds exactly on lengths from 1 through `MAX_LEN`; a zero or
/// oversized length is rejected as `InvalidLength` and nothing is built.
pub fn build_plan(n: usize, inverse: bool) -> (r: Result<Plan, FftError>)
    ensures
        r is Ok <==> 1 <= n <= MAX_LEN,
        r is Err ==> r == Err::<Plan, FftError>(FftError::InvalidLength),
        r is Ok ==> plan_wf(r->Ok_0) && (r->Ok_0).n == n && (r->Ok_0).inverse == inverse,
{
    if n == 0 || n > MAX_LEN {
        return Err(FftError::InvalidLength);
    }
    if has_large_prime_factor(n as u64) {
        let c = build_chirp(n);
        let pad = c.pad;
        let stages = build_stages(pad);
        let perm = digit_reversal_table(pad);
        Ok(Plan { n, inverse, stages, perm, chirp: Some(c) })
    } else {
        let stages = build_stages(n);
        let perm = digit_reversal_table(n);
        Ok(Plan { n, inverse, stages, perm, chirp: None })
    }
}

/// Ghost image of a stage: radix, length, and the twiddle angles as exact
/// rational pairs.
#[verifier::ext_equal]
pub struct StageModel {
    pub radix: int,
    pub len: int,
    pub tw: Seq<(int, int)>,
}

/// Ghost image of a plan: everything execution depends on.
#[verifier::ext_equal]
pub struct PlanModel {
    pub n: int,
    pub inverse: bool,
    pub stages: Seq<StageModel>,
    pub perm: Seq<int>,
    pub chirp_pad: int,
    pub chirp_squares: Seq<int>,
}

pub open spec fn stage_model(s: Stage) -> StageModel {
    StageModel {
        radix: s.radix as int,
        len: s.len as int,
        tw: s.twiddles@.map_values(|t: Twiddle| (t.num as int, t.den as int)),
    }
}

pub open spec fn plan_model(p: Plan) -> PlanModel {
    PlanModel {
        n: p.n as int,
        inverse: p.inverse,
        stages: p.stages@.map_values(|s: Stage| stage_model(s)),
        perm: p.perm@.map_values(|x: usize| x as int),
        chirp_pad: match p.chirp {
            Some(c) => c.pad as int,
            None => 0,
        },
        chirp_squares: match p.chirp {
            Some(c) => c.squares@.map_values(|x: u64| x as int),
            None => Seq::empty(),
        },
    }
}

proof fn lemma_perm_model_eq(q1: Seq<usize>, q2: Seq<usize>, m: int)
    requires
        perm_wf(q1, m),
        perm_wf(q2, m),
    ensures
        q1.map_values(|x: usize| x as int) == q2.map_values(|x: usize| x as int),
{
    assert forall|i: int| 0 <= i < m implies q1[i] == q2[i] by {
        assert(q1[i] == digit_rev(factor_seq(m), i));
        assert(q2[i] == digit_rev(factor_seq(m), i));
    }
    assert(q1.map_values(|x: usize| x as int) =~= q2.map_values(|x: usize| x as int));
}

proof fn lemma_stages_model_eq(s1: Seq<Stage>, s2: Seq<Stage>, m: int)
    requires
        stages_wf(s1, m),
        stages_wf(s2, m),
    ensures
        s1.map_values(|s: Stage| stage_model(s)) == s2.map_values(|s: Stage| stage_model(s)),
{
    let fs = factor_seq(m);
    assert forall|i: int| 0 <= i < s1.len() implies stage_model(s1[i]) == stage_model(s2[i]) by {
        let l = prod(fs.take(i + 1));
        assert(stage_wf(s1[i], fs[i], l));
        assert(stage_wf(s2[i], fs[i], l));
        let t1 = stage_model(s1[i]).tw;
        let t2 = stage_model(s2[i]).tw;
        assert forall|k: int| 0 <= k < l implies t1[k] == t2[k] by {
            assert(twiddle_ok(s1[i].twiddles@[k], k, fs[i], l));
            assert(twiddle_ok(s2[i].twiddles@[k], k, fs[i], l));
        }
        assert(t1 =~= t2);
        assert(stage_model(s1[i]) =~= stage_model(s2[i]));
    }
    assert(s1.map_values(|s: Stage| stage_model(s)) =~= s2.map_values(|s: Stage| stage_model(s)));
}

/// Planning is deterministic: any two well-formed plans for one length
/// carry the same stage list and the same chirp table, whatever their
/// directions.  A handle reused across runs therefore drives exactly the
/// execution a freshly built handle would, which is what makes plan reuse
/// sound.
pub proof fn lemma_plan_structure_deterministic(p1: Plan, p2: Plan)
    requires
        plan_wf(p1),
        plan_wf(p2),
        p1.n == p2.n,
    ensures
        plan_model(p1).stages == plan_model(p2).stages,
        plan_model(p1).perm == plan_model(p2).perm,
        plan_model(p1).chirp_pad == plan_model(p2).chirp_pad,
        plan_model(p1).chirp_squares == plan_model(p2).chirp_squares,
{
    let n = p1.n as int;
    match (p1.chirp, p2.chirp) {
        (Some(c1), Some(c2)) => {
            lemma_pow2_cover_unique(c1.pad as int, c2.pad as int, 2 * n - 1);
            assert(c1.squares@.map_values(|x: u64| x as int)
                =~= c2.squares@.map_values(|x: u64| x as int));
            lemma_stages_model_eq(p1.stages@, p2.stages@, c1.pad as int);
            lemma_perm_model_eq(p1.perm@, p2.perm@, c1.pad as int);
        },
        (None, None) => {
            lemma_stages_model_eq(p1.stages@, p2.stages@, n);
            lemma_perm_model_eq(p1.perm@, p2.perm@, n);
        },
        _ => {
            assert(false);
        },
    }
}

} // verus!
