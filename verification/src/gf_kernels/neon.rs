//! Nibble-table kernel laid out for 16-byte (NEON) registers.
//!
//! Each full 16-byte chunk is multiplied through two per-call 16-entry tables: one for the
//! low and one for the high nibble of every byte, as a table lookup instruction reads them.
//! The bytes after the last full chunk go through the field tables.

use super::portable::PortableKernel;
use super::{alpha_bytes, mul_add_bytes, scale_bytes, GfBlockKernel};
use crate::gf256::{
    gf_mul, lemma_gf_mul_comm, lemma_gf_mul_nibbles, lemma_gf_mul_small, poly_byte, Gf256Field,
};
use crate::slab_storage::xor_bytes;
use vstd::prelude::*;

verus! {

/// Kernel that multiplies through per-call nibble tables, 16 bytes at a time.
#[derive(Debug, Clone, Copy, Default)]
pub struct NeonKernel;

const CHUNK: usize = 16;

/// The nibble tables for `scalar`: `low[j] = scalar * j` and `hi[j] = scalar * (j << 4)` for
/// `j < 16`.
pub open spec fn shuffle_tables_for(t: ([u8; 16], [u8; 16]), scalar: u8, p: u8) -> bool {
    &&& forall|j: int| 0 <= j < 16 ==> #[trigger] t.0@[j] == gf_mul(scalar, j as u8, p)
    &&& forall|j: int| 0 <= j < 16 ==> #[trigger] t.1@[j] == gf_mul(scalar, ((j as u8) << 4u8) as u8, p)
}

/// Builds the low- and high-nibble tables for `scalar` from the field tables.
fn mul_shuffle_tables(gf: &Gf256Field, scalar: u8) -> (t: ([u8; CHUNK], [u8; CHUNK]))
    ensures
        shuffle_tables_for(t, scalar, poly_byte(gf@)),
{
    let ghost p = poly_byte(gf@);
    let mut low = [0u8; CHUNK];
    let mut hi = [0u8; CHUNK];
    let mut j: usize = 0;
    while j < 16
        invariant
            0 <= j <= 16,
            p == poly_byte(gf@),
            forall|k: int| 0 <= k < j ==> #[trigger] low@[k] == gf_mul(scalar, k as u8, p),
            forall|k: int| 0 <= k < j ==> #[trigger] hi@[k] == gf_mul(scalar, ((k as u8) << 4u8) as u8, p),
        decreases 16 - j,
    {
        let jb = j as u8;
        let lj = gf.mul_lookup(scalar, jb);
        let hj = gf.mul_lookup(scalar, jb << 4u8);
        low[j] = lj;
        hi[j] = hj;
        assert(low@[j as int] == gf_mul(scalar, j as u8, p));
        assert(hi@[j as int] == gf_mul(scalar, ((j as u8) << 4u8) as u8, p));
        j = j + 1;
    }
    (low, hi)
}

/// Table entries for byte `x`: the two nibbles index the two tables.
proof fn lemma_nibble_lookup(t: ([u8; 16], [u8; 16]), scalar: u8, p: u8, x: u8)
    requires
        shuffle_tables_for(t, scalar, p),
    ensures
        t.1@[(x >> 4u8) as int] ^ t.0@[(x & 0x0fu8) as int] == gf_mul(scalar, x, p),
{
    lemma_gf_mul_nibbles(scalar, x, p);
    let hn = (x >> 4u8) as int;
    let ln = (x & 0x0fu8) as int;
    assert(t.0@[ln] == gf_mul(scalar, ln as u8, p));
    assert(t.1@[hn] == gf_mul(scalar, ((hn as u8) << 4u8) as u8, p));
    assert((hn as u8) == x >> 4u8);
    assert(ln as u8 == x & 0x0fu8);
}

/// `dst[i] ^= src[i]`, 16 bytes per step and then the remaining bytes.
fn xor_neon(dst: &mut [u8], src: &[u8])
    requires
        old(dst)@.len() == src@.len(),
    ensures
        final(dst)@ == xor_bytes(old(dst)@, src@),
{
    let len = dst.len();
    let mut i: usize = 0;
    while len - i >= CHUNK
        invariant
            len == old(dst)@.len(),
            src@.len() == len,
            dst@.len() == len,
            0 <= i <= len,
            forall|k: int| 0 <= k < i ==> #[trigger] dst@[k] == old(dst)@[k] ^ src@[k],
            forall|k: int| i <= k < len ==> #[trigger] dst@[k] == old(dst)@[k],
        decreases len - i,
    {
        let mut c: usize = 0;
        while c < CHUNK
            invariant
                len == old(dst)@.len(),
                src@.len() == len,
                dst@.len() == len,
                i + CHUNK <= len,
                0 <= c <= CHUNK,
                forall|k: int| 0 <= k < i + c ==> #[trigger] dst@[k] == old(dst)@[k] ^ src@[k],
                forall|k: int| i + c <= k < len ==> #[trigger] dst@[k] == old(dst)@[k],
            decreases CHUNK - c,
        {
            dst[i + c] = dst[i + c] ^ src[i + c];
            c = c + 1;
        }
        i = i + CHUNK;
    }
    while i < len
        invariant
            len == old(dst)@.len(),
            src@.len() == len,
            dst@.len() == len,
            0 <= i <= len,
            forall|k: int| 0 <= k < i ==> #[trigger] dst@[k] == old(dst)@[k] ^ src@[k],
            forall|k: int| i <= k < len ==> #[trigger] dst@[k] == old(dst)@[k],
        decreases len - i,
    {
        dst[i] = dst[i] ^ src[i];
        i = i + 1;
    }
    assert(dst@ =~= xor_bytes(old(dst)@, src@));
}

/// `dst[i] = scalar * dst[i]`: full chunks through the nibble tables, the rest through the
/// field tables.
fn mul_scalar_neon(
    dst: &mut [u8],
    low: &[u8; CHUNK],
    hi: &[u8; CHUNK],
    gf: &Gf256Field,
    scalar: u8,
)
    requires
        shuffle_tables_for((*low, *hi), scalar, poly_byte(gf@)),
    ensures
        final(dst)@ == Seq::new(old(dst)@.len(), |k: int| gf_mul(scalar, old(dst)@[k], poly_byte(gf@))),
{
    let ghost p = poly_byte(gf@);
    let len = dst.len();
    let mut i: usize = 0;
    while len - i >= CHUNK
        invariant
            len == old(dst)@.len(),
            dst@.len() == len,
            p == poly_byte(gf@),
            shuffle_tables_for((*low, *hi), scalar, p),
            0 <= i <= len,
            forall|k: int| 0 <= k < i ==> #[trigger] dst@[k] == gf_mul(scalar, old(dst)@[k], p),
            forall|k: int| i <= k < len ==> #[trigger] dst@[k] == old(dst)@[k],
        decreases len - i,
    {
        let mut c: usize = 0;
        while c < CHUNK
            invariant
                len == old(dst)@.len(),
                dst@.len() == len,
                p == poly_byte(gf@),
                shuffle_tables_for((*low, *hi), scalar, p),
                i + CHUNK <= len,
                0 <= c <= CHUNK,
                forall|k: int|
                    0 <= k < i + c ==> #[trigger] dst@[k] == gf_mul(scalar, old(dst)@[k], p),
                forall|k: int| i + c <= k < len ==> #[trigger] dst@[k] == old(dst)@[k],
            decreases CHUNK - c,
        {
            let x = dst[i + c];
            proof {
                lemma_gf_mul_nibbles(scalar, x, p);
                lemma_nibble_lookup((*low, *hi), scalar, p, x);
            }
            let h = hi[(x >> 4u8) as usize];
            let l = low[(x & 0x0fu8) as usize];
            dst[i + c] = h ^ l;
            c = c + 1;
        }
        i = i + CHUNK;
    }
    while i < len
        invariant
            len == old(dst)@.len(),
            dst@.len() == len,
            p == poly_byte(gf@),
            0 <= i <= len,
            forall|k: int| 0 <= k < i ==> #[trigger] dst@[k] == gf_mul(scalar, old(dst)@[k], p),
            forall|k: int| i <= k < len ==> #[trigger] dst@[k] == old(dst)@[k],
        decreases len - i,
    {
        let b = dst[i];
        dst[i] = gf.mul_lookup(scalar, b);
        i = i + 1;
    }
    assert(dst@ =~= Seq::new(old(dst)@.len(), |k: int| gf_mul(scalar, old(dst)@[k], p)));
}

/// `dst[i] ^= scalar * src[i]`: full chunks through the nibble tables, the rest through the
/// field tables.
fn mul_add_neon(
    dst: &mut [u8],
    src: &[u8],
    low: &[u8; CHUNK],
    hi: &[u8; CHUNK],
    gf: &Gf256Field,
    scalar: u8,
)
    requires
        old(dst)@.len() == src@.len(),
        shuffle_tables_for((*low, *hi), scalar, poly_byte(gf@)),
    ensures
        final(dst)@ == mul_add_bytes(old(dst)@, src@, scalar, poly_byte(gf@)),
{
    let ghost p = poly_byte(gf@);
    let len = dst.len();
    let mut i: usize = 0;
    while len - i >= CHUNK
        invariant
            len == old(dst)@.len(),
            src@.len() == len,
            dst@.len() == len,
            p == poly_byte(gf@),
            shuffle_tables_for((*low, *hi), scalar, p),
            0 <= i <= len,
            forall|k: int|
                0 <= k < i ==> #[trigger] dst@[k] == old(dst)@[k] ^ gf_mul(scalar, src@[k], p),
            forall|k: int| i <= k < len ==> #[trigger] dst@[k] == old(dst)@[k],
        decreases len - i,
    {
        let mut c: usize = 0;
        while c < CHUNK
            invariant
                len == old(dst)@.len(),
                src@.len() == len,
                dst@.len() == len,
                p == poly_byte(gf@),
                shuffle_tables_for((*low, *hi), scalar, p),
                i + CHUNK <= len,
                0 <= c <= CHUNK,
                forall|k: int|
                    0 <= k < i + c ==> #[trigger] dst@[k] == old(dst)@[k] ^ gf_mul(
                        scalar,
                        src@[k],
                        p,
                    ),
                forall|k: int| i + c <= k < len ==> #[trigger] dst@[k] == old(dst)@[k],
            decreases CHUNK - c,
        {
            let x = src[i + c];
            proof {
                lemma_gf_mul_nibbles(scalar, x, p);
                lemma_nibble_lookup((*low, *hi), scalar, p, x);
            }
            let h = hi[(x >> 4u8) as usize];
            let l = low[(x & 0x0fu8) as usize];
            dst[i + c] = dst[i + c] ^ (h ^ l);
            c = c + 1;
        }
        i = i + CHUNK;
    }
    while i < len
        invariant
            len == old(dst)@.len(),
            src@.len() == len,
            dst@.len() == len,
            p == poly_byte(gf@),
            0 <= i <= len,
            forall|k: int|
                0 <= k < i ==> #[trigger] dst@[k] == old(dst)@[k] ^ gf_mul(scalar, src@[k], p),
            forall|k: int| i <= k < len ==> #[trigger] dst@[k] == old(dst)@[k],
        decreases len - i,
    {
        let m = gf.mul_lookup(scalar, src[i]);
        dst[i] = dst[i] ^ m;
        i = i + 1;
    }
    assert(dst@ =~= mul_add_bytes(old(dst)@, src@, scalar, p));
}

impl GfBlockKernel for NeonKernel {
    fn xor_inplace(&self, dst: &mut [u8], src: &[u8]) {
        if dst.len() >= CHUNK {
            xor_neon(dst, src);
            return;
        }
        PortableKernel.xor_inplace(dst, src);
    }

    fn mul_add_inplace(&self, gf: &Gf256Field, dst: &mut [u8], src: &[u8], scalar: u8) {
        let ghost p = poly_byte(gf@);
        if scalar == 0 {
            PortableKernel.mul_add_inplace(gf, dst, src, scalar);
        } else if scalar == 1 {
            self.xor_inplace(dst, src);
            assert forall|k: int| 0 <= k < dst@.len() implies #[trigger] mul_add_bytes(
                old(dst)@,
                src@,
                scalar,
                p,
            )[k] == dst@[k] by {
                lemma_gf_mul_small(src@[k], p);
            }
            assert(dst@ =~= mul_add_bytes(old(dst)@, src@, scalar, p));
        } else {
            let tables = mul_shuffle_tables(gf, scalar);
            if dst.len() >= CHUNK {
                mul_add_neon(dst, src, &tables.0, &tables.1, gf, scalar);
                return;
            }
            PortableKernel.mul_add_inplace(gf, dst, src, scalar);
        }
    }

    fn mul_scalar_inplace(&self, gf: &Gf256Field, dst: &mut [u8], scalar: u8) {
        let ghost p = poly_byte(gf@);
        if scalar == 0 || scalar == 1 {
            PortableKernel.mul_scalar_inplace(gf, dst, scalar);
        } else {
            let tables = mul_shuffle_tables(gf, scalar);
            if dst.len() >= CHUNK {
                mul_scalar_neon(dst, &tables.0, &tables.1, gf, scalar);
                assert forall|k: int| 0 <= k < dst@.len() implies #[trigger] scale_bytes(
                    old(dst)@,
                    scalar,
                    p,
                )[k] == dst@[k] by {
                    lemma_gf_mul_comm(scalar, old(dst)@[k], p);
                }
                assert(dst@ =~= scale_bytes(old(dst)@, scalar, p));
                return;
            }
            PortableKernel.mul_scalar_inplace(gf, dst, scalar);
        }
    }

    fn mul_alpha_inplace(&self, gf: &Gf256Field, dst: &mut [u8]) {
        let ghost p = poly_byte(gf@);
        let alpha = gf.primitive_element();
        self.mul_scalar_inplace(gf, dst, alpha);
        assert forall|k: int| 0 <= k < dst@.len() implies #[trigger] alpha_bytes(old(dst)@, p)[k]
            == dst@[k] by {
            lemma_gf_mul_small(old(dst)@[k], p);
        }
        assert(dst@ =~= alpha_bytes(old(dst)@, p));
    }
}

} // verus!
