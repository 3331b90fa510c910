//! Scalar portable kernel using the field's lookup tables.

use super::{alpha_bytes, mul_add_bytes, scale_bytes, GfBlockKernel};
use crate::gf256::{gf_mul, lemma_gf_mul_small, poly_byte, xtime, Gf256Field};
use crate::slab_storage::xor_bytes;
use vstd::prelude::*;

verus! {

/// Scalar portable implementation over the GF(256) lookup tables.
#[derive(Debug, Clone, Copy, Default)]
pub struct PortableKernel;

impl GfBlockKernel for PortableKernel {
    fn xor_inplace(&self, dst: &mut [u8], src: &[u8]) {
        let n = dst.len();
        let mut i: usize = 0;
        while i < n
            invariant
                n == old(dst)@.len(),
                src@.len() == n,
                dst@.len() == n,
                0 <= i <= n,
                forall|k: int| 0 <= k < i ==> #[trigger] dst@[k] == old(dst)@[k] ^ src@[k],
                forall|k: int| i <= k < n ==> #[trigger] dst@[k] == old(dst)@[k],
            decreases n - i,
        {
            dst[i] = dst[i] ^ src[i];
            i = i + 1;
        }
        assert(dst@ =~= xor_bytes(old(dst)@, src@));
    }

    fn mul_add_inplace(&self, gf: &Gf256Field, dst: &mut [u8], src: &[u8], scalar: u8) {
        let ghost p = poly_byte(gf@);
        if scalar == 0 {
            assert forall|k: int| 0 <= k < dst@.len() implies #[trigger] mul_add_bytes(
                old(dst)@,
                src@,
                scalar,
                p,
            )[k] == dst@[k] by {
                lemma_gf_mul_small(src@[k], p);
                let x = dst@[k];
                assert(x ^ 0u8 == x) by (bit_vector);
            }
            assert(dst@ =~= mul_add_bytes(old(dst)@, src@, scalar, p));
        } else if scalar == 1 {
            self.xor_inplace(dst, src);
            assert forall|k: int| 0 <= k < dst@.len() implies #[trigger] mul_add_bytes(
                old(dst)@,
                src@,
                scalar,
                p,
            )[k] == dst@[k] by {
                lemma_gf_mul_small(src@[k], p);
            }
            assert(dst@ =~= mul_add_bytes(old(dst)@, src@, scalar, p));
        } else {
            let n = dst.len();
            let mut i: usize = 0;
            while i < n
                invariant
                    n == old(dst)@.len(),
                    src@.len() == n,
                    dst@.len() == n,
                    p == poly_byte(gf@),
                    0 <= i <= n,
                    forall|k: int|
                        0 <= k < i ==> #[trigger] dst@[k] == old(dst)@[k] ^ gf_mul(scalar, src@[k], p),
                    forall|k: int| i <= k < n ==> #[trigger] dst@[k] == old(dst)@[k],
                decreases n - i,
            {
                let m = gf.mul_lookup(scalar, src[i]);
                dst[i] = dst[i] ^ m;
                i = i + 1;
            }
            assert(dst@ =~= mul_add_bytes(old(dst)@, src@, scalar, p));
        }
    }

    fn mul_scalar_inplace(&self, gf: &Gf256Field, dst: &mut [u8], scalar: u8) {
        let ghost p = poly_byte(gf@);
        let n = dst.len();
        if scalar == 0 {
            let mut i: usize = 0;
            while i < n
                invariant
                    n == old(dst)@.len(),
                    dst@.len() == n,
                    0 <= i <= n,
                    forall|k: int| 0 <= k < i ==> #[trigger] dst@[k] == 0u8,
                decreases n - i,
            {
                dst[i] = 0u8;
                i = i + 1;
            }
            assert forall|k: int| 0 <= k < n implies #[trigger] scale_bytes(old(dst)@, scalar, p)[k]
                == dst@[k] by {
                lemma_gf_mul_small(old(dst)@[k], p);
            }
            assert(dst@ =~= scale_bytes(old(dst)@, scalar, p));
        } else if scalar == 1 {
            assert forall|k: int| 0 <= k < n implies #[trigger] scale_bytes(old(dst)@, scalar, p)[k]
                == dst@[k] by {
                lemma_gf_mul_small(old(dst)@[k], p);
            }
            assert(dst@ =~= scale_bytes(old(dst)@, scalar, p));
        } else {
            let mut i: usize = 0;
            while i < n
                invariant
                    n == old(dst)@.len(),
                    dst@.len() == n,
                    p == poly_byte(gf@),
                    0 <= i <= n,
                    forall|k: int| 0 <= k < i ==> #[trigger] dst@[k] == gf_mul(old(dst)@[k], scalar, p),
                    forall|k: int| i <= k < n ==> #[trigger] dst@[k] == old(dst)@[k],
                decreases n - i,
            {
                let m = gf.mul_lookup(dst[i], scalar);
                dst[i] = m;
                i = i + 1;
            }
            assert(dst@ =~= scale_bytes(old(dst)@, scalar, p));
        }
    }

    fn mul_alpha_inplace(&self, gf: &Gf256Field, dst: &mut [u8]) {
        let ghost p = poly_byte(gf@);
        let n = dst.len();
        let mut i: usize = 0;
        while i < n
            invariant
                n == old(dst)@.len(),
                dst@.len() == n,
                p == poly_byte(gf@),
                0 <= i <= n,
                forall|k: int| 0 <= k < i ==> #[trigger] dst@[k] == xtime(old(dst)@[k], p),
                forall|k: int| i <= k < n ==> #[trigger] dst@[k] == old(dst)@[k],
            decreases n - i,
        {
            let m = gf.mul_alpha(dst[i]);
            dst[i] = m;
            i = i + 1;
        }
        assert(dst@ =~= alpha_bytes(old(dst)@, p));
    }
}

} // verus!
