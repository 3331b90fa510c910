//! Arithmetic of GF(2^8): the product that the field tables hold, and its algebra.

use fountain_engine::algebra::finite_field::GF256;
use vstd::prelude::*;

verus! {

/// Multiplication by the primitive element `x` modulo `x^8 + p`, where `p` holds the low
/// eight coefficients of the field polynomial.
pub open spec fn xtime(a: u8, p: u8) -> u8 {
    if a & 0x80u8 != 0 {
        (a << 1u8) ^ p
    } else {
        a << 1u8
    }
}

/// `a * x^n`: `n` applications of [`xtime`].
pub open spec fn xtime_n(a: u8, p: u8, n: nat) -> u8
    decreases n,
{
    if n == 0 {
        a
    } else {
        xtime(xtime_n(a, p, (n - 1) as nat), p)
    }
}

/// `t` when `b` has the bit `bit` set, else zero.
pub open spec fn pick(b: u8, bit: u8, t: u8) -> u8 {
    if b & bit != 0 {
        t
    } else {
        0u8
    }
}

/// XOR of the terms `t_i` over the set bits `i` of `b`.
pub open spec fn xor8(b: u8, t0: u8, t1: u8, t2: u8, t3: u8, t4: u8, t5: u8, t6: u8, t7: u8) -> u8 {
    pick(b, 0x01u8, t0) ^ pick(b, 0x02u8, t1) ^ pick(b, 0x04u8, t2) ^ pick(b, 0x08u8, t3) ^ pick(
        b,
        0x10u8,
        t4,
    ) ^ pick(b, 0x20u8, t5) ^ pick(b, 0x40u8, t6) ^ pick(b, 0x80u8, t7)
}

/// The product `a * b` in GF(2^8) modulo `x^8 + p`: the XOR of `a * x^i` over the set bits `i`
/// of `b` (shift-and-add multiplication of polynomials over GF(2), reduced at every shift).
pub open spec fn gf_mul(a: u8, b: u8, p: u8) -> u8 {
    xor8(
        b,
        xtime_n(a, p, 0),
        xtime_n(a, p, 1),
        xtime_n(a, p, 2),
        xtime_n(a, p, 3),
        xtime_n(a, p, 4),
        xtime_n(a, p, 5),
        xtime_n(a, p, 6),
        xtime_n(a, p, 7),
    )
}

/// The low byte of a field polynomial `x^8 + ...` given as a `u16`.
pub open spec fn poly_byte(pp: u16) -> u8 {
    (pp % 256) as u8
}

proof fn lemma_xtime_linear(a: u8, c: u8, p: u8)
    ensures
        xtime(a ^ c, p) == xtime(a, p) ^ xtime(c, p),
        xtime(0u8, p) == 0u8,
{
    assert(xtime(a ^ c, p) == xtime(a, p) ^ xtime(c, p)) by (bit_vector);
    assert(xtime(0u8, p) == 0u8) by (bit_vector);
}

proof fn lemma_xtime_n_linear(a: u8, c: u8, p: u8, n: nat)
    ensures
        xtime_n(a ^ c, p, n) == xtime_n(a, p, n) ^ xtime_n(c, p, n),
        xtime_n(0u8, p, n) == 0u8,
    decreases n,
{
    if n > 0 {
        lemma_xtime_n_linear(a, c, p, (n - 1) as nat);
        lemma_xtime_linear(xtime_n(a, p, (n - 1) as nat), xtime_n(c, p, (n - 1) as nat), p);
        lemma_xtime_linear(0u8, 0u8, p);
    }
}

proof fn lemma_xor8_split(
    b: u8,
    t0: u8,
    t1: u8,
    t2: u8,
    t3: u8,
    t4: u8,
    t5: u8,
    t6: u8,
    t7: u8,
    u0: u8,
    u1: u8,
    u2: u8,
    u3: u8,
    u4: u8,
    u5: u8,
    u6: u8,
    u7: u8,
)
    ensures
        xor8(b, t0 ^ u0, t1 ^ u1, t2 ^ u2, t3 ^ u3, t4 ^ u4, t5 ^ u5, t6 ^ u6, t7 ^ u7) == xor8(
            b,
            t0,
            t1,
            t2,
            t3,
            t4,
            t5,
            t6,
            t7,
        ) ^ xor8(b, u0, u1, u2, u3, u4, u5, u6, u7),
        xor8(b, 0u8, 0u8, 0u8, 0u8, 0u8, 0u8, 0u8, 0u8) == 0u8,
{
    assert(xor8(b, t0 ^ u0, t1 ^ u1, t2 ^ u2, t3 ^ u3, t4 ^ u4, t5 ^ u5, t6 ^ u6, t7 ^ u7)
        == xor8(b, t0, t1, t2, t3, t4, t5, t6, t7) ^ xor8(b, u0, u1, u2, u3, u4, u5, u6, u7))
        by (bit_vector);
    assert(xor8(b, 0u8, 0u8, 0u8, 0u8, 0u8, 0u8, 0u8, 0u8) == 0u8) by (bit_vector);
}

proof fn lemma_xor8_split_b(
    b: u8,
    c: u8,
    t0: u8,
    t1: u8,
    t2: u8,
    t3: u8,
    t4: u8,
    t5: u8,
    t6: u8,
    t7: u8,
)
    ensures
        xor8(b ^ c, t0, t1, t2, t3, t4, t5, t6, t7) == xor8(b, t0, t1, t2, t3, t4, t5, t6, t7)
            ^ xor8(c, t0, t1, t2, t3, t4, t5, t6, t7),
{
    assert(xor8(b ^ c, t0, t1, t2, t3, t4, t5, t6, t7) == xor8(b, t0, t1, t2, t3, t4, t5, t6, t7)
        ^ xor8(c, t0, t1, t2, t3, t4, t5, t6, t7)) by (bit_vector);
}

/// Multiplication distributes over addition on the left: `(a + c) * b == a * b + c * b`.
pub proof fn lemma_gf_mul_linear_left(a: u8, c: u8, b: u8, p: u8)
    ensures
        gf_mul(a ^ c, b, p) == gf_mul(a, b, p) ^ gf_mul(c, b, p),
        gf_mul(0u8, b, p) == 0u8,
{
    lemma_xtime_n_linear(a, c, p, 0);
    lemma_xtime_n_linear(a, c, p, 1);
    lemma_xtime_n_linear(a, c, p, 2);
    lemma_xtime_n_linear(a, c, p, 3);
    lemma_xtime_n_linear(a, c, p, 4);
    lemma_xtime_n_linear(a, c, p, 5);
    lemma_xtime_n_linear(a, c, p, 6);
    lemma_xtime_n_linear(a, c, p, 7);
    lemma_xor8_split(
        b,
        xtime_n(a, p, 0),
        xtime_n(a, p, 1),
        xtime_n(a, p, 2),
        xtime_n(a, p, 3),
        xtime_n(a, p, 4),
        xtime_n(a, p, 5),
        xtime_n(a, p, 6),
        xtime_n(a, p, 7),
        xtime_n(c, p, 0),
        xtime_n(c, p, 1),
        xtime_n(c, p, 2),
        xtime_n(c, p, 3),
        xtime_n(c, p, 4),
        xtime_n(c, p, 5),
        xtime_n(c, p, 6),
        xtime_n(c, p, 7),
    );
}

/// Multiplication distributes over addition on the right: `a * (b + c) == a * b + a * c`.
pub proof fn lemma_gf_mul_linear_right(a: u8, b: u8, c: u8, p: u8)
    ensures
        gf_mul(a, b ^ c, p) == gf_mul(a, b, p) ^ gf_mul(a, c, p),
{
    lemma_xor8_split_b(
        b,
        c,
        xtime_n(a, p, 0),
        xtime_n(a, p, 1),
        xtime_n(a, p, 2),
        xtime_n(a, p, 3),
        xtime_n(a, p, 4),
        xtime_n(a, p, 5),
        xtime_n(a, p, 6),
        xtime_n(a, p, 7),
    );
}

proof fn lemma_xtime_xor8(b: u8, t0: u8, t1: u8, t2: u8, t3: u8, t4: u8, t5: u8, t6: u8, t7: u8, p: u8)
    ensures
        xtime(xor8(b, t0, t1, t2, t3, t4, t5, t6, t7), p) == xor8(
            b,
            xtime(t0, p),
            xtime(t1, p),
            xtime(t2, p),
            xtime(t3, p),
            xtime(t4, p),
            xtime(t5, p),
            xtime(t6, p),
            xtime(t7, p),
        ),
{
    assert(xtime(xor8(b, t0, t1, t2, t3, t4, t5, t6, t7), p) == xor8(
        b,
        xtime(t0, p),
        xtime(t1, p),
        xtime(t2, p),
        xtime(t3, p),
        xtime(t4, p),
        xtime(t5, p),
        xtime(t6, p),
        xtime(t7, p),
    )) by (bit_vector);
}

proof fn lemma_xtime_n_xor8(
    b: u8,
    t0: u8,
    t1: u8,
    t2: u8,
    t3: u8,
    t4: u8,
    t5: u8,
    t6: u8,
    t7: u8,
    p: u8,
    n: nat,
)
    ensures
        xtime_n(xor8(b, t0, t1, t2, t3, t4, t5, t6, t7), p, n) == xor8(
            b,
            xtime_n(t0, p, n),
            xtime_n(t1, p, n),
            xtime_n(t2, p, n),
            xtime_n(t3, p, n),
            xtime_n(t4, p, n),
            xtime_n(t5, p, n),
            xtime_n(t6, p, n),
            xtime_n(t7, p, n),
        ),
    decreases n,
{
    if n > 0 {
        let m = (n - 1) as nat;
        lemma_xtime_n_xor8(b, t0, t1, t2, t3, t4, t5, t6, t7, p, m);
        lemma_xtime_xor8(
            b,
            xtime_n(t0, p, m),
            xtime_n(t1, p, m),
            xtime_n(t2, p, m),
            xtime_n(t3, p, m),
            xtime_n(t4, p, m),
            xtime_n(t5, p, m),
            xtime_n(t6, p, m),
            xtime_n(t7, p, m),
            p,
        );
    }
}

proof fn lemma_xtime_n_add(a: u8, p: u8, i: nat, j: nat)
    ensures
        xtime_n(xtime_n(a, p, i), p, j) == xtime_n(a, p, i + j),
    decreases j,
{
    if j > 0 {
        lemma_xtime_n_add(a, p, i, (j - 1) as nat);
        assert((i + j - 1) as nat == i + (j - 1) as nat);
    }
}

/// The powers `x^0 .. x^7` are the single-bit bytes, and every byte is the XOR of its bits.
proof fn lemma_unit_bytes(b: u8, p: u8)
    ensures
        xtime_n(1u8, p, 0) == 0x01u8,
        xtime_n(1u8, p, 1) == 0x02u8,
        xtime_n(1u8, p, 2) == 0x04u8,
        xtime_n(1u8, p, 3) == 0x08u8,
        xtime_n(1u8, p, 4) == 0x10u8,
        xtime_n(1u8, p, 5) == 0x20u8,
        xtime_n(1u8, p, 6) == 0x40u8,
        xtime_n(1u8, p, 7) == 0x80u8,
        b == xor8(b, 0x01u8, 0x02u8, 0x04u8, 0x08u8, 0x10u8, 0x20u8, 0x40u8, 0x80u8),
{
    assert(xtime(0x01u8, p) == 0x02u8 && xtime(0x02u8, p) == 0x04u8 && xtime(0x04u8, p) == 0x08u8
        && xtime(0x08u8, p) == 0x10u8 && xtime(0x10u8, p) == 0x20u8 && xtime(0x20u8, p) == 0x40u8
        && xtime(0x40u8, p) == 0x80u8) by (bit_vector);
    assert(b == xor8(b, 0x01u8, 0x02u8, 0x04u8, 0x08u8, 0x10u8, 0x20u8, 0x40u8, 0x80u8))
        by (bit_vector);
    reveal_with_fuel(xtime_n, 8);
}

/// `x^j * b == b * x^j`.
proof fn lemma_mul_power_left(j: nat, b: u8, p: u8)
    ensures
        gf_mul(xtime_n(1u8, p, j), b, p) == xtime_n(b, p, j),
{
    lemma_unit_bytes(b, p);
    lemma_xtime_n_xor8(
        b,
        xtime_n(1u8, p, 0),
        xtime_n(1u8, p, 1),
        xtime_n(1u8, p, 2),
        xtime_n(1u8, p, 3),
        xtime_n(1u8, p, 4),
        xtime_n(1u8, p, 5),
        xtime_n(1u8, p, 6),
        xtime_n(1u8, p, 7),
        p,
        j,
    );
    lemma_xtime_n_add(1u8, p, j, 0);
    lemma_xtime_n_add(1u8, p, j, 1);
    lemma_xtime_n_add(1u8, p, j, 2);
    lemma_xtime_n_add(1u8, p, j, 3);
    lemma_xtime_n_add(1u8, p, j, 4);
    lemma_xtime_n_add(1u8, p, j, 5);
    lemma_xtime_n_add(1u8, p, j, 6);
    lemma_xtime_n_add(1u8, p, j, 7);
    lemma_xtime_n_add(1u8, p, 0, j);
    lemma_xtime_n_add(1u8, p, 1, j);
    lemma_xtime_n_add(1u8, p, 2, j);
    lemma_xtime_n_add(1u8, p, 3, j);
    lemma_xtime_n_add(1u8, p, 4, j);
    lemma_xtime_n_add(1u8, p, 5, j);
    lemma_xtime_n_add(1u8, p, 6, j);
    lemma_xtime_n_add(1u8, p, 7, j);
    assert(j + 0 == 0 + j && j + 1 == 1 + j && j + 2 == 2 + j && j + 3 == 3 + j);
    assert(j + 4 == 4 + j && j + 5 == 5 + j && j + 6 == 6 + j && j + 7 == 7 + j);
}

proof fn lemma_pick_mul(a: u8, bit: u8, e: u8, b: u8, p: u8)
    ensures
        gf_mul(pick(a, bit, e), b, p) == pick(a, bit, gf_mul(e, b, p)),
{
    lemma_gf_mul_linear_left(0u8, 0u8, b, p);
}

/// Multiplication in GF(2^8) is commutative.
pub proof fn lemma_gf_mul_comm(a: u8, b: u8, p: u8)
    ensures
        gf_mul(a, b, p) == gf_mul(b, a, p),
{
    lemma_unit_bytes(a, p);
    let e0 = xtime_n(1u8, p, 0);
    let e1 = xtime_n(1u8, p, 1);
    let e2 = xtime_n(1u8, p, 2);
    let e3 = xtime_n(1u8, p, 3);
    let e4 = xtime_n(1u8, p, 4);
    let e5 = xtime_n(1u8, p, 5);
    let e6 = xtime_n(1u8, p, 6);
    let e7 = xtime_n(1u8, p, 7);
    let q0 = pick(a, 0x01u8, e0);
    let q1 = pick(a, 0x02u8, e1);
    let q2 = pick(a, 0x04u8, e2);
    let q3 = pick(a, 0x08u8, e3);
    let q4 = pick(a, 0x10u8, e4);
    let q5 = pick(a, 0x20u8, e5);
    let q6 = pick(a, 0x40u8, e6);
    let q7 = pick(a, 0x80u8, e7);
    assert(a == q0 ^ q1 ^ q2 ^ q3 ^ q4 ^ q5 ^ q6 ^ q7);
    lemma_gf_mul_linear_left(q0 ^ q1 ^ q2 ^ q3 ^ q4 ^ q5 ^ q6, q7, b, p);
    lemma_gf_mul_linear_left(q0 ^ q1 ^ q2 ^ q3 ^ q4 ^ q5, q6, b, p);
    lemma_gf_mul_linear_left(q0 ^ q1 ^ q2 ^ q3 ^ q4, q5, b, p);
    lemma_gf_mul_linear_left(q0 ^ q1 ^ q2 ^ q3, q4, b, p);
    lemma_gf_mul_linear_left(q0 ^ q1 ^ q2, q3, b, p);
    lemma_gf_mul_linear_left(q0 ^ q1, q2, b, p);
    lemma_gf_mul_linear_left(q0, q1, b, p);
    lemma_pick_mul(a, 0x01u8, e0, b, p);
    lemma_pick_mul(a, 0x02u8, e1, b, p);
    lemma_pick_mul(a, 0x04u8, e2, b, p);
    lemma_pick_mul(a, 0x08u8, e3, b, p);
    lemma_pick_mul(a, 0x10u8, e4, b, p);
    lemma_pick_mul(a, 0x20u8, e5, b, p);
    lemma_pick_mul(a, 0x40u8, e6, b, p);
    lemma_pick_mul(a, 0x80u8, e7, b, p);
    lemma_mul_power_left(0, b, p);
    lemma_mul_power_left(1, b, p);
    lemma_mul_power_left(2, b, p);
    lemma_mul_power_left(3, b, p);
    lemma_mul_power_left(4, b, p);
    lemma_mul_power_left(5, b, p);
    lemma_mul_power_left(6, b, p);
    lemma_mul_power_left(7, b, p);
}

/// Multiplying by zero, one and the primitive element `x`.
pub proof fn lemma_gf_mul_small(a: u8, p: u8)
    ensures
        gf_mul(a, 0u8, p) == 0u8,
        gf_mul(a, 1u8, p) == a,
        gf_mul(a, 2u8, p) == xtime(a, p),
        gf_mul(0u8, a, p) == 0u8,
        gf_mul(1u8, a, p) == a,
        gf_mul(2u8, a, p) == xtime(a, p),
{
    let t0 = xtime_n(a, p, 0);
    let t1 = xtime_n(a, p, 1);
    let t2 = xtime_n(a, p, 2);
    let t3 = xtime_n(a, p, 3);
    let t4 = xtime_n(a, p, 4);
    let t5 = xtime_n(a, p, 5);
    let t6 = xtime_n(a, p, 6);
    let t7 = xtime_n(a, p, 7);
    assert(xor8(0u8, t0, t1, t2, t3, t4, t5, t6, t7) == 0u8 && xor8(1u8, t0, t1, t2, t3, t4, t5, t6, t7)
        == t0 && xor8(2u8, t0, t1, t2, t3, t4, t5, t6, t7) == t1) by (bit_vector);
    reveal_with_fuel(xtime_n, 2);
    lemma_gf_mul_comm(a, 0u8, p);
    lemma_gf_mul_comm(a, 1u8, p);
    lemma_gf_mul_comm(a, 2u8, p);
}

/// A byte times `b` is the XOR of the byte times the low and the high nibble of `b`.
pub proof fn lemma_gf_mul_nibbles(s: u8, b: u8, p: u8)
    ensures
        gf_mul(s, b, p) == gf_mul(s, (b >> 4u8) << 4u8, p) ^ gf_mul(s, b & 0x0fu8, p),
        b & 0x0fu8 < 16,
        b >> 4u8 < 16,
{
    assert(b == ((b >> 4u8) << 4u8) ^ (b & 0x0fu8) && b & 0x0fu8 < 16 && b >> 4u8 < 16)
        by (bit_vector);
    lemma_gf_mul_linear_right(s, (b >> 4u8) << 4u8, b & 0x0fu8, p);
}

/// The field polynomials that the field tables accept: the monic primitive degree-8
/// polynomials over GF(2) with generator `x`.
pub open spec fn is_primitive_polynomial(pp: u16) -> bool {
    ||| pp == 0x11D
    ||| pp == 0x12B
    ||| pp == 0x12D
    ||| pp == 0x14D
    ||| pp == 0x15F
    ||| pp == 0x163
    ||| pp == 0x165
    ||| pp == 0x169
    ||| pp == 0x171
    ||| pp == 0x187
    ||| pp == 0x18D
    ||| pp == 0x1A9
    ||| pp == 0x1C3
    ||| pp == 0x1CF
    ||| pp == 0x1E7
    ||| pp == 0x1F5
}

#[verifier::external_type_specification]
#[verifier::external_body]
pub struct ExGF256(GF256);

/// What `GF256::primitive_polynomial` reports for a set of tables: `0x100` plus the low byte
/// they were built with, which depends on the tables alone.
pub uninterp spec fn table_polynomial(gf: GF256) -> u16;

/// GF(256) multiplication tables together with the field polynomial they were built for.
///
/// The tables are only ever built from `poly` (or taken, with their own polynomial, from an
/// existing field), so every product read from them is the product modulo `poly`.
pub struct Gf256Field {
    poly: u16,
    tables: GF256,
}

impl View for Gf256Field {
    /// The field polynomial, e.g. `0x11D`.
    type V = u16;

    closed spec fn view(&self) -> u16 {
        self.poly
    }
}

impl Gf256Field {
    /// Builds the tables with `GF256::new_with_primitive_polynomial`, which accepts exactly
    /// the whitelisted primitive polynomials (it panics on any other value).
    #[verifier::external_body]
    pub(crate) fn with_polynomial(pp: u16) -> (f: Self)
        requires
            is_primitive_polynomial(pp),
        ensures
            f@ == pp,
    {
        Gf256Field { poly: pp, tables: GF256::new_with_primitive_polynomial(pp) }
    }

    /// Takes a copy of existing tables with `GF256::clone`, together with the polynomial that
    /// `GF256::primitive_polynomial` reports for them. Tables can only be built for
    /// whitelisted polynomials, so the polynomial is one of them.
    #[verifier::external_body]
    pub(crate) fn from_tables(gf: &GF256) -> (f: Self)
        ensures
            f@ == table_polynomial(*gf),
            is_primitive_polynomial(f@),
    {
        Gf256Field { poly: gf.primitive_polynomial(), tables: gf.clone() }
    }

    /// `GF256::mul_lookup`: reads the table entry, which was filled with the shift-and-add
    /// product of the two bytes modulo the field polynomial.
    #[verifier::external_body]
    pub(crate) fn mul_lookup(&self, a: u8, b: u8) -> (r: u8)
        ensures
            r == gf_mul(a, b, poly_byte(self@)),
    {
        self.tables.mul_lookup(a, b)
    }

    /// `GF256::mul_alpha`: `0 -> 0`, `1 -> 2`, `a < 128 -> a << 1`, otherwise
    /// `(a << 1) ^ low byte of the polynomial`; that is, one `xtime` step.
    #[verifier::external_body]
    pub(crate) fn mul_alpha(&self, a: u8) -> (r: u8)
        ensures
            r == xtime(a, poly_byte(self@)),
    {
        self.tables.mul_alpha(a)
    }

    /// `GF256::primitive_polynomial`: `0x100` plus the stored low byte, which is the
    /// polynomial the tables were built for.
    #[verifier::external_body]
    pub(crate) fn primitive_polynomial(&self) -> (r: u16)
        ensures
            r == self@,
            r == table_polynomial(self.spec_tables()),
    {
        self.tables.primitive_polynomial()
    }

    /// `GF256::primitive_element`, which is the constant `0x02`.
    #[verifier::external_body]
    pub(crate) fn primitive_element(&self) -> (r: u8)
        ensures
            r == 2u8,
    {
        self.tables.primitive_element()
    }

    /// GF(256) tables for the primitive polynomial `pp` (e.g. `0x11D`).
    pub fn new(pp: u16) -> (f: Self)
        requires
            is_primitive_polynomial(pp),
        ensures
            f@ == pp,
    {
        Self::with_polynomial(pp)
    }

    /// A field using a copy of existing tables, with the polynomial they report.
    pub fn from_gf256(gf: &GF256) -> (f: Self)
        ensures
            f@ == table_polynomial(*gf),
            is_primitive_polynomial(f@),
    {
        Self::from_tables(gf)
    }

    /// The field polynomial.
    pub fn polynomial(&self) -> (r: u16)
        ensures
            r == self@,
    {
        self.primitive_polynomial()
    }

    /// The tables this field was built with.
    pub closed spec fn spec_tables(&self) -> GF256 {
        self.tables
    }

    /// The underlying tables: those this field multiplies with.
    pub fn tables(&self) -> (r: &GF256)
        ensures
            *r == self.spec_tables(),
    {
        &self.tables
    }
}

} // verus!
