//! GF(256) block kernels for vector operations.

pub mod avx2;
pub mod dispatch;
pub mod neon;
pub mod portable;

pub use avx2::Avx2Kernel;
pub use neon::NeonKernel;
pub use portable::PortableKernel;

use crate::gf256::{gf_mul, poly_byte, xtime, Gf256Field};
use crate::slab_storage::xor_bytes;
use vstd::prelude::*;

verus! {

/// `dst[i] ^ scalar * src[i]` for every `i`.
pub open spec fn mul_add_bytes(dst: Seq<u8>, src: Seq<u8>, scalar: u8, p: u8) -> Seq<u8> {
    Seq::new(dst.len(), |i: int| dst[i] ^ gf_mul(scalar, src[i], p))
}

/// `dst[i] * scalar` for every `i`.
pub open spec fn scale_bytes(dst: Seq<u8>, scalar: u8, p: u8) -> Seq<u8> {
    Seq::new(dst.len(), |i: int| gf_mul(dst[i], scalar, p))
}

/// `dst[i] * x` (the primitive element) for every `i`.
pub open spec fn alpha_bytes(dst: Seq<u8>, p: u8) -> Seq<u8> {
    Seq::new(dst.len(), |i: int| xtime(dst[i], p))
}

/// The kernels a slab operator can run on.
#[derive(Debug, Clone, Copy, PartialEq, Eq, Structural)]
pub enum KernelKind {
    Portable,
    Avx2,
    Neon,
}

impl KernelKind {
    /// Whether the kernel is one of the nibble-table (SIMD-layout) kernels.
    pub fn is_simd(self) -> (b: bool)
        ensures
            b == (self == KernelKind::Avx2 || self == KernelKind::Neon),
    {
        match self {
            KernelKind::Avx2 | KernelKind::Neon => true,
            KernelKind::Portable => false,
        }
    }
}

impl GfBlockKernel for KernelKind {
    fn xor_inplace(&self, dst: &mut [u8], src: &[u8]) {
        match self {
            KernelKind::Portable => PortableKernel.xor_inplace(dst, src),
            KernelKind::Avx2 => Avx2Kernel.xor_inplace(dst, src),
            KernelKind::Neon => NeonKernel.xor_inplace(dst, src),
        }
    }

    fn mul_add_inplace(&self, gf: &Gf256Field, dst: &mut [u8], src: &[u8], scalar: u8) {
        match self {
            KernelKind::Portable => PortableKernel.mul_add_inplace(gf, dst, src, scalar),
            KernelKind::Avx2 => Avx2Kernel.mul_add_inplace(gf, dst, src, scalar),
            KernelKind::Neon => NeonKernel.mul_add_inplace(gf, dst, src, scalar),
        }
    }

    fn mul_scalar_inplace(&self, gf: &Gf256Field, dst: &mut [u8], scalar: u8) {
        match self {
            KernelKind::Portable => PortableKernel.mul_scalar_inplace(gf, dst, scalar),
            KernelKind::Avx2 => Avx2Kernel.mul_scalar_inplace(gf, dst, scalar),
            KernelKind::Neon => NeonKernel.mul_scalar_inplace(gf, dst, scalar),
        }
    }

    fn mul_alpha_inplace(&self, gf: &Gf256Field, dst: &mut [u8]) {
        match self {
            KernelKind::Portable => PortableKernel.mul_alpha_inplace(gf, dst),
            KernelKind::Avx2 => Avx2Kernel.mul_alpha_inplace(gf, dst),
            KernelKind::Neon => NeonKernel.mul_alpha_inplace(gf, dst),
        }
    }
}

/// Slice-oriented GF(256) primitives used by the slab operators.
pub trait GfBlockKernel {
    /// `dst[i] ^= src[i]` for all `i`.
    fn xor_inplace(&self, dst: &mut [u8], src: &[u8])
        requires
            old(dst)@.len() == src@.len(),
        ensures
            final(dst)@ == xor_bytes(old(dst)@, src@),
    ;

    /// `dst[i] ^= scalar * src[i]`.
    fn mul_add_inplace(&self, gf: &Gf256Field, dst: &mut [u8], src: &[u8], scalar: u8)
        requires
            old(dst)@.len() == src@.len(),
        ensures
            final(dst)@ == mul_add_bytes(old(dst)@, src@, scalar, poly_byte(gf@)),
    ;

    /// `dst[i] = dst[i] * scalar`.
    fn mul_scalar_inplace(&self, gf: &Gf256Field, dst: &mut [u8], scalar: u8)
        ensures
            final(dst)@ == scale_bytes(old(dst)@, scalar, poly_byte(gf@)),
    ;

    /// `dst[i] = alpha * dst[i]` (the primitive element of `gf`).
    fn mul_alpha_inplace(&self, gf: &Gf256Field, dst: &mut [u8])
        ensures
            final(dst)@ == alpha_bytes(old(dst)@, poly_byte(gf@)),
    ;
}

/// The portable kernel. It never selects SIMD silently.
pub fn default_kernel() -> (k: PortableKernel) {
    PortableKernel
}

/// The kernels this build offers: only the portable one, as no runtime SIMD dispatch is built in.
pub open spec fn spec_available_kernel_kinds() -> Seq<KernelKind> {
    seq![KernelKind::Portable]
}

/// The kernel for this process. This build carries no runtime CPU dispatch, so it is always
/// the portable kernel.
pub fn select_kernel() -> (k: KernelKind)
    ensures
        spec_available_kernel_kinds().contains(k),
        k == KernelKind::Portable,
{
    selected_kernel_kind()
}

/// Reports which kernel [`select_kernel`] picks in the current process.
pub fn selected_kernel_kind() -> (k: KernelKind)
    ensures
        spec_available_kernel_kinds().contains(k),
        k == KernelKind::Portable,
{
    if dispatch::avx2_available() {
        return KernelKind::Avx2;
    }
    if dispatch::neon_available() {
        return KernelKind::Neon;
    }
    proof {
        assert(spec_available_kernel_kinds()[0] == KernelKind::Portable);
    }
    KernelKind::Portable
}

/// Reports all kernels available for this build.
pub fn available_kernel_kinds() -> (v: Vec<KernelKind>)
    ensures
        v@ == spec_available_kernel_kinds(),
{
    let mut v = Vec::new();
    v.push(KernelKind::Portable);
    proof {
        assert(v@ =~= spec_available_kernel_kinds());
    }
    v
}

} // verus!
