//! Runtime CPU feature detection for kernel selection.

use vstd::prelude::*;

verus! {

/// Whether AVX2 may be used at runtime. This build carries no runtime CPU dispatch, so the
/// answer is always `false`.
pub fn avx2_available() -> (b: bool)
    ensures
        !b,
{
    false
}

/// Whether NEON may be used at runtime. This build carries no runtime CPU dispatch, so the
/// answer is always `false`.
pub fn neon_available() -> (b: bool)
    ensures
        !b,
{
    false
}

} // verus!
