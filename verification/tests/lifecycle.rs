use fft_core::errors::FftError;
use fft_core::handle::Handle;

#[test]
fn create_and_query() {
    let h = Handle::create(8, false).unwrap();
    assert_eq!(h.len(), 8);
    assert!(!h.is_inverse());
    assert!(!h.is_released());
    let hi = Handle::create(8, true).unwrap();
    assert!(hi.is_inverse());
}

#[test]
fn create_rejects_zero_length() {
    assert!(matches!(Handle::create(0, false), Err(FftError::InvalidLength)));
    assert!(matches!(Handle::create(0, true), Err(FftError::InvalidLength)));
}

#[test]
fn run_check_accepts_exact_lengths() {
    let h = Handle::create(8, false).unwrap();
    assert_eq!(h.check_run(8, 8), Ok(()));
    // the handle is reusable: checking again still passes
    assert_eq!(h.check_run(8, 8), Ok(()));
}

#[test]
fn length_mismatch_leaves_buffers_untouched() {
    // a handle built for 8 run with length-7 arrays fails with LengthMismatch
    let h = Handle::create(8, false).unwrap();
    let re = vec![1.0f32; 7];
    let im = vec![0.5f32; 7];
    assert_eq!(h.check_run(re.len(), im.len()), Err(FftError::LengthMismatch));
    assert_eq!(h.check_run(8, 7), Err(FftError::LengthMismatch));
    assert_eq!(h.check_run(7, 8), Err(FftError::LengthMismatch));
    // the check never takes the buffers, so they are unchanged
    assert!(re.iter().all(|&x| x == 1.0));
    assert!(im.iter().all(|&x| x == 0.5));
}

#[test]
fn release_is_final_and_idempotent() {
    let mut h = Handle::create(4, false).unwrap();
    assert_eq!(h.check_run(4, 4), Ok(()));
    h.release();
    assert!(h.is_released());
    assert_eq!(h.len(), 4);
    assert_eq!(h.check_run(4, 4), Err(FftError::UseAfterRelease));
    h.release();
    assert!(h.is_released());
    assert_eq!(h.check_run(4, 4), Err(FftError::UseAfterRelease));
}

#[test]
fn handle_reuse_matches_fresh_handles() {
    // two handles for one length own identical tables, whatever the
    // direction, so reusing one equals building another
    let h1 = Handle::create(12, false).unwrap();
    let h2 = Handle::create(12, true).unwrap();
    assert_eq!(h1.plan().stages, h2.plan().stages);
    assert_eq!(h1.plan().chirp, h2.plan().chirp);
    let h3 = Handle::create(17, false).unwrap();
    let h4 = Handle::create(17, false).unwrap();
    assert_eq!(h3.plan(), h4.plan());
}
