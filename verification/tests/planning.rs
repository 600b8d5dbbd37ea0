use fft_core::errors::FftError;
use fft_core::factor::{factorize, has_large_prime_factor, next_pow2_at_least, smallest_prime_factor};
use fft_core::plan::build_plan;
use fft_core::reorder::digit_reversal_table;
use fft_core::{max_supported_len, MAX_LEN};

#[test]
fn factorize_powers_of_two() {
    assert_eq!(factorize(1), Vec::<u64>::new());
    assert_eq!(factorize(2), vec![2]);
    assert_eq!(factorize(8), vec![2, 2, 2]);
    assert_eq!(factorize(1024), vec![2; 10]);
}

#[test]
fn factorize_composites() {
    assert_eq!(factorize(12), vec![2, 2, 3]);
    assert_eq!(factorize(360), vec![2, 2, 2, 3, 3, 5]);
    assert_eq!(factorize(1001), vec![7, 11, 13]);
}

#[test]
fn factorize_primes() {
    assert_eq!(factorize(5), vec![5]);
    assert_eq!(factorize(13), vec![13]);
    assert_eq!(factorize(17), vec![17]);
    assert_eq!(factorize(97), vec![97]);
}

#[test]
fn smallest_factor_examples() {
    assert_eq!(smallest_prime_factor(2), 2);
    assert_eq!(smallest_prime_factor(9), 3);
    assert_eq!(smallest_prime_factor(91), 7);
    assert_eq!(smallest_prime_factor(97), 97);
}

#[test]
fn fallback_decision() {
    assert!(!has_large_prime_factor(1));
    assert!(!has_large_prime_factor(13));
    assert!(!has_large_prime_factor(16));
    assert!(!has_large_prime_factor(360));
    assert!(has_large_prime_factor(17));
    assert!(has_large_prime_factor(34));
    assert!(has_large_prime_factor(1024 * 31));
}

#[test]
fn pow2_cover_examples() {
    assert_eq!(next_pow2_at_least(1), 1);
    assert_eq!(next_pow2_at_least(2), 2);
    assert_eq!(next_pow2_at_least(5), 8);
    assert_eq!(next_pow2_at_least(33), 64);
    assert_eq!(next_pow2_at_least(64), 64);
}

#[test]
fn plan_smooth_structure() {
    let p = build_plan(8, false).unwrap();
    assert_eq!(p.n, 8);
    assert!(!p.inverse);
    assert!(p.chirp.is_none());
    let radii: Vec<usize> = p.stages.iter().map(|s| s.radix).collect();
    assert_eq!(radii, vec![2, 2, 2]);
    let lens: Vec<usize> = p.stages.iter().map(|s| s.len).collect();
    assert_eq!(lens, vec![2, 4, 8]);
    // entry i of the length-4 radix-2 stage carries (i/2)*(i%2) mod 4
    let st = &p.stages[1];
    let nums: Vec<u64> = st.twiddles.iter().map(|t| t.num).collect();
    assert_eq!(nums, vec![0, 0, 0, 1]);
    assert!(st.twiddles.iter().all(|t| t.den == 4));
    // last stage of length 8: (i/2)*(i%2) mod 8 for i in 0..8
    let nums8: Vec<u64> = p.stages[2].twiddles.iter().map(|t| t.num).collect();
    assert_eq!(nums8, vec![0, 0, 0, 1, 0, 2, 0, 3]);
}

#[test]
fn reorder_is_bit_reversal_for_powers_of_two() {
    assert_eq!(digit_reversal_table(1), vec![0]);
    assert_eq!(digit_reversal_table(2), vec![0, 1]);
    assert_eq!(digit_reversal_table(8), vec![0, 4, 2, 6, 1, 5, 3, 7]);
    assert_eq!(digit_reversal_table(16), vec![0, 8, 4, 12, 2, 10, 6, 14, 1, 9, 5, 13, 3, 11, 7, 15]);
}

#[test]
fn reorder_interleaves_mixed_radices() {
    // radices [2, 3]: the mod-2 classes come out consecutively
    assert_eq!(digit_reversal_table(6), vec![0, 3, 1, 4, 2, 5]);
    // every table is a permutation
    for m in 1usize..=60 {
        let mut seen = vec![false; m];
        for v in digit_reversal_table(m) {
            assert!(v < m);
            assert!(!seen[v]);
            seen[v] = true;
        }
    }
}

#[test]
fn plan_carries_its_reorder() {
    let p = build_plan(8, false).unwrap();
    assert_eq!(p.perm, vec![0, 4, 2, 6, 1, 5, 3, 7]);
    let q = build_plan(17, false).unwrap();
    // on the chirp path the reorder covers the padded length
    assert_eq!(q.perm.len(), 64);
    assert_eq!(q.perm, digit_reversal_table(64));
}

#[test]
fn plan_length_five_is_a_single_butterfly() {
    let p = build_plan(5, false).unwrap();
    assert!(p.chirp.is_none());
    assert_eq!(p.stages.len(), 1);
    assert_eq!(p.stages[0].radix, 5);
    assert_eq!(p.stages[0].len, 5);
    assert!(p.stages[0].twiddles.iter().all(|t| t.num == 0 && t.den == 5));
}

#[test]
fn plan_prime_takes_chirp() {
    let p = build_plan(17, true).unwrap();
    assert!(p.inverse);
    let c = p.chirp.as_ref().unwrap();
    // padded length: smallest power of two covering 2*17 - 1 = 33
    assert_eq!(c.pad, 64);
    assert_eq!(c.squares.len(), 17);
    let expect: Vec<u64> = (0u64..17).map(|k| (k * k) % 34).collect();
    assert_eq!(c.squares, expect);
    // the stages decompose the pad: six radix-2 passes up to 64
    assert_eq!(p.stages.len(), 6);
    assert!(p.stages.iter().all(|s| s.radix == 2));
    assert_eq!(p.stages.last().unwrap().len, 64);
}

#[test]
fn plan_rejects_bad_lengths() {
    assert_eq!(build_plan(0, false), Err(FftError::InvalidLength));
    assert_eq!(build_plan(0, true), Err(FftError::InvalidLength));
    assert_eq!(build_plan(MAX_LEN + 1, false), Err(FftError::InvalidLength));
    assert_eq!(max_supported_len(), MAX_LEN);
}

#[test]
fn plan_at_maximum_length() {
    let p = build_plan(MAX_LEN, false).unwrap();
    assert_eq!(p.n, MAX_LEN);
    assert!(p.chirp.is_none());
    assert_eq!(p.stages.len(), 20);
    assert!(p.stages.iter().all(|s| s.radix == 2));
    assert_eq!(p.perm.len(), MAX_LEN);
}

#[test]
fn plan_accepts_trivial_length() {
    let p = build_plan(1, false).unwrap();
    assert_eq!(p.n, 1);
    assert!(p.chirp.is_none());
    assert!(p.stages.is_empty());
}
