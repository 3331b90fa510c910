//! Slab operator whose kernel is chosen once, at construction, by [`select_kernel`].

use crate::gf256::{is_primitive_polynomial, Gf256Field};
use crate::gf_kernels::{select_kernel, KernelKind};
use crate::operation::{apply_op, field_byte, op_growth, Operation};
use crate::replay::VectorOperator;
use crate::slab_data_operator::{SlabDataOperator, GF2_FIELD_POLY};
use crate::slab_storage::SlabStorage;
use vstd::prelude::*;

verus! {

/// Slab-backed operator using the kernel that [`select_kernel`] reports for this process.
///
/// Where no SIMD kernel is selected, it behaves as [`SlabDataOperator`] with the portable
/// kernel.
pub struct SimdDataOperator(SlabDataOperator);

impl View for SimdDataOperator {
    type V = Map<usize, Seq<u8>>;

    open spec fn view(&self) -> Map<usize, Seq<u8>> {
        self.inner()@
    }
}

impl SimdDataOperator {
    /// The wrapped slab operator.
    pub closed spec fn inner(&self) -> SlabDataOperator {
        self.0
    }

    pub fn new(vector_len: usize) -> (s: Self)
        ensures
            s.inner().wf(),
            s@ == Map::<usize, Seq<u8>>::empty(),
            s.inner().spec_vector_len() == vector_len,
            s.inner().field() is None,
            s.inner().spec_kernel() == KernelKind::Portable,
            s.inner().spec_storage().spec_num_slots() == 0,
    {
        SimdDataOperator(SlabDataOperator::with_kernel(vector_len, None, select_kernel()))
    }

    pub fn new_with_gf256(vector_len: usize, pp: u16) -> (s: Self)
        requires
            is_primitive_polynomial(pp),
        ensures
            s.inner().wf(),
            s@ == Map::<usize, Seq<u8>>::empty(),
            s.inner().spec_vector_len() == vector_len,
            s.inner().field() == Some(pp),
            s.inner().spec_kernel() == KernelKind::Portable,
            s.inner().spec_storage().spec_num_slots() == 0,
    {
        SimdDataOperator(
            SlabDataOperator::with_kernel(
                vector_len,
                Some(Gf256Field::with_polynomial(pp)),
                select_kernel(),
            ),
        )
    }

    pub fn gf256(&self) -> (r: Option<&Gf256Field>)
        ensures
            r is Some <==> self.inner().field() is Some,
            r is Some ==> self.inner().field() == Some(r->0@),
    {
        self.0.gf256()
    }

    pub fn storage(&self) -> (r: &SlabStorage)
        ensures
            *r == self.inner().spec_storage(),
    {
        self.0.storage()
    }

    pub fn storage_mut(&mut self) -> (r: &mut SlabStorage)
        ensures
            *r == old(self).inner().spec_storage(),
            final(self).inner().spec_storage() == *final(r),
            final(self).inner().field() == old(self).inner().field(),
            final(self).inner().spec_kernel() == old(self).inner().spec_kernel(),
    {
        self.0.storage_mut()
    }

    pub fn config_finite_field(&mut self, pp: u16)
        requires
            pp == GF2_FIELD_POLY || is_primitive_polynomial(pp),
        ensures
            final(self).inner().wf() == old(self).inner().wf(),
            final(self)@ == old(self)@,
            final(self).inner().spec_storage() == old(self).inner().spec_storage(),
            final(self).inner().spec_kernel() == old(self).inner().spec_kernel(),
            final(self).inner().field() == (if pp == GF2_FIELD_POLY {
                None
            } else {
                Some(pp)
            }),
    {
        self.0.config_finite_field(pp);
    }

    /// Uses the field `gf`, unless the current field already has its polynomial.
    pub fn config_finite_field_from(&mut self, gf: Gf256Field)
        ensures
            final(self).inner().wf() == old(self).inner().wf(),
            final(self)@ == old(self)@,
            final(self).inner().spec_storage() == old(self).inner().spec_storage(),
            final(self).inner().spec_kernel() == old(self).inner().spec_kernel(),
            final(self).inner().field() == Some(gf@),
    {
        self.0.config_finite_field_from(gf);
    }

    pub fn insert_vector(&mut self, src: &[u8], data_id: usize)
        requires
            old(self).inner().wf(),
            src@.len() == old(self).inner().spec_vector_len(),
            !old(self)@.contains_key(data_id) ==> old(self).inner().has_room(1),
        ensures
            final(self).inner().wf(),
            final(self)@ == old(self)@.insert(data_id, src@),
            final(self).inner().spec_vector_len() == old(self).inner().spec_vector_len(),
            final(self).inner().field() == old(self).inner().field(),
            final(self).inner().spec_kernel() == old(self).inner().spec_kernel(),
    {
        self.0.insert_vector(src, data_id);
    }

    pub fn get_vector(&self, data_id: usize) -> (r: &[u8])
        requires
            self.inner().wf(),
            self@.contains_key(data_id),
        ensures
            r@ == self@[data_id],
    {
        self.0.get_vector(data_id)
    }

    /// Whether [`Self::execute`] can run `op` now.
    pub fn can_execute(&self, op: &Operation) -> (b: bool)
        requires
            self.inner().wf(),
        ensures
            b == self.inner().op_ok(*op),
    {
        self.0.can_execute(op)
    }

    /// Whether [`Self::insert_vector`] can store `src` under `data_id` now.
    pub fn can_insert(&self, src: &[u8], data_id: usize) -> (b: bool)
        requires
            self.inner().wf(),
        ensures
            b == (src@.len() == self.inner().spec_vector_len() && (!self@.contains_key(data_id)
                ==> self.inner().has_room(1))),
    {
        self.0.can_insert(src, data_id)
    }

    pub fn execute(&mut self, operation: &Operation)
        requires
            old(self).inner().op_ok(*operation),
        ensures
            final(self).inner().wf(),
            final(self)@ == apply_op(
                old(self)@,
                old(self).inner().spec_vector_len(),
                field_byte(old(self).inner().field()),
                *operation,
            ),
            final(self).inner().spec_vector_len() == old(self).inner().spec_vector_len(),
            final(self).inner().field() == old(self).inner().field(),
            final(self).inner().spec_kernel() == old(self).inner().spec_kernel(),
            final(self).inner().spec_storage().spec_num_slots() <= old(self).inner().spec_storage().spec_num_slots() + op_growth(*operation),
    {
        self.0.execute(operation);
    }
}

/// A SIMD operator and a slab operator in the same state (the same vectors, vector length,
/// field, slot count and well-formedness) accept the same operations, and what `execute`
/// leaves in each (by its `ensures`) is the same vectors, with the same length and field.
pub proof fn law_simd_matches_slab(
    s: SimdDataOperator,
    s_after: SimdDataOperator,
    o: SlabDataOperator,
    o_after: SlabDataOperator,
    op: Operation,
)
    requires
        s@ == o@,
        s.inner().wf() == o.wf(),
        s.inner().spec_vector_len() == o.spec_vector_len(),
        s.inner().field() == o.field(),
        s.inner().spec_storage().spec_num_slots() == o.spec_storage().spec_num_slots(),
        s_after@ == apply_op(s@, s.inner().spec_vector_len(), field_byte(s.inner().field()), op),
        s_after.inner().spec_vector_len() == s.inner().spec_vector_len(),
        s_after.inner().field() == s.inner().field(),
        o_after@ == apply_op(o@, o.spec_vector_len(), field_byte(o.field()), op),
        o_after.spec_vector_len() == o.spec_vector_len(),
        o_after.field() == o.field(),
    ensures
        s.inner().op_ok(op) == o.op_ok(op),
        s_after@ == o_after@,
        s_after.inner().spec_vector_len() == o_after.spec_vector_len(),
        s_after.inner().field() == o_after.field(),
{
}

impl VectorOperator for SimdDataOperator {
    open spec fn vectors(&self) -> Map<usize, Seq<u8>> {
        self@
    }

    open spec fn vector_length(&self) -> nat {
        self.inner().spec_vector_len()
    }

    open spec fn field_poly(&self) -> Option<u16> {
        self.inner().field()
    }

    open spec fn ready(&self) -> bool {
        self.inner().wf()
    }

    open spec fn room(&self, extra: nat) -> bool {
        self.inner().has_room(extra)
    }

    fn get_vector(&self, data_id: usize) -> (r: &[u8]) {
        SimdDataOperator::get_vector(self, data_id)
    }

    proof fn lemma_room_monotone(&self, fewer: nat, more: nat) {
        self.inner().lemma_room_monotone(fewer, more);
    }

    fn execute_op(&mut self, op: &Operation) {
        let ghost old_inner = self.0;
        self.0.execute_op(op);
        proof {
            assert forall|k: nat| #[trigger] old(self).room(k + op_growth(*op)) implies self.room(
                k,
            ) by {
                assert(old_inner.room(k + op_growth(*op)));
            }
        }
    }
}

} // verus!
