//! Planning core of a complex-to-complex discrete Fourier transform engine.
//!
//! The crate factorizes a transform length into small radices, builds an
//! immutable execution plan (stage list, twiddle-angle tables, and a chirp
//! table for lengths that need the convolution fallback), and manages the
//! lifecycle of a reusable handle around one plan.  Everything here is
//! integer logic and is verified; the floating-point kernel that interprets
//! a plan lives outside the library.

use vstd::prelude::*;

pub mod errors;
pub mod factor;
pub mod handle;
pub mod plan;
pub mod reorder;

verus! {

/// Largest transform length a plan will be built for; bounds the memory a
/// twiddle table can take.
pub const MAX_LEN: usize = 1048576;

/// Reports the largest supported transform length.
pub fn max_supported_len() -> (r: usize)
    ensures
        r == MAX_LEN,
{
    MAX_LEN
}

} // verus!
