//! Vector operator backed by a contiguous [`SlabStorage`].

use crate::gf256::{gf_mul, is_primitive_polynomial, lemma_gf_mul_small, poly_byte, Gf256Field};
use crate::gf_kernels::{
    alpha_bytes, mul_add_bytes, scale_bytes, GfBlockKernel, KernelKind,
};
use crate::operation::{
    add_one, add_sources, apply_op, broadcast_from, field_byte, op_growth, op_valid, zero_all,
    Operation,
};
use crate::replay::VectorOperator;
use crate::slab_storage::{xor_bytes, zero_bytes, SlabStorage};
use vstd::prelude::*;

verus! {

/// The field polynomial that selects a GF(2)-only session (no GF(256) tables).
pub const GF2_FIELD_POLY: u16 = 0x001;

/// `x ^ x` is all zeros.
pub proof fn lemma_xor_self(x: Seq<u8>)
    ensures
        xor_bytes(x, x) == zero_bytes(x.len()),
{
    assert forall|i: int| 0 <= i < x.len() implies #[trigger] xor_bytes(x, x)[i] == zero_bytes(
        x.len(),
    )[i] by {
        let b = x[i];
        assert(b ^ b == 0u8) by (bit_vector);
    }
    assert(xor_bytes(x, x) =~= zero_bytes(x.len()));
}

proof fn lemma_add_two(m: Map<usize, Seq<u8>>, s0: usize, s1: usize, t: usize)
    requires
        m.contains_key(s0),
        m.contains_key(s1),
        m.contains_key(t),
        s0 != s1,
        s0 != t,
        s1 != t,
    ensures
        add_sources(m, seq![s0, s1], t) == m.insert(t, xor_bytes(xor_bytes(m[t], m[s0]), m[s1])),
{
    assert(seq![s0, s1].drop_last() =~= seq![s0]);
    assert(seq![s0].drop_last() =~= Seq::<usize>::empty());
    let m1 = add_sources(m, seq![s0], t);
    assert(add_sources(m, Seq::<usize>::empty(), t) == m);
    assert(m1 == add_one(add_sources(m, Seq::<usize>::empty(), t), s0, t));
    assert(m1 == m.insert(t, xor_bytes(m[t], m[s0])));
    assert(add_sources(m, seq![s0, s1], t) == add_one(m1, s1, t));
    assert(m1.insert(t, xor_bytes(xor_bytes(m[t], m[s0]), m[s1])) =~= m.insert(
        t,
        xor_bytes(xor_bytes(m[t], m[s0]), m[s1]),
    ));
}

proof fn lemma_add_three(m: Map<usize, Seq<u8>>, s0: usize, s1: usize, s2: usize, t: usize)
    requires
        m.contains_key(s0),
        m.contains_key(s1),
        m.contains_key(s2),
        m.contains_key(t),
        s0 != s1,
        s0 != s2,
        s1 != s2,
        s0 != t,
        s1 != t,
        s2 != t,
    ensures
        add_sources(m, seq![s0, s1, s2], t) == m.insert(
            t,
            xor_bytes(xor_bytes(xor_bytes(m[t], m[s0]), m[s1]), m[s2]),
        ),
{
    assert(seq![s0, s1, s2].drop_last() =~= seq![s0, s1]);
    lemma_add_two(m, s0, s1, t);
    let m2 = add_sources(m, seq![s0, s1], t);
    assert(add_sources(m, seq![s0, s1, s2], t) == add_one(m2, s2, t));
    assert(m2.insert(t, xor_bytes(xor_bytes(xor_bytes(m[t], m[s0]), m[s1]), m[s2])) =~= m.insert(
        t,
        xor_bytes(xor_bytes(xor_bytes(m[t], m[s0]), m[s1]), m[s2]),
    ));
}

/// Slab-backed operator: one contiguous buffer, a `data_id -> slot` map, an optional
/// GF(256) field and the kernel that does the block arithmetic.
///
/// Operation semantics are those of the reference vector operator.
pub struct SlabDataOperator {
    storage: SlabStorage,
    gf256: Option<Gf256Field>,
    kernel: KernelKind,
}

impl View for SlabDataOperator {
    /// The stored vectors by data ID.
    type V = Map<usize, Seq<u8>>;

    closed spec fn view(&self) -> Map<usize, Seq<u8>> {
        self.storage.contents()
    }
}

impl SlabDataOperator {
    pub closed spec fn wf(&self) -> bool {
        self.storage.wf()
    }

    /// The configured field polynomial, if a GF(256) field is set.
    pub closed spec fn field(&self) -> Option<u16> {
        match self.gf256 {
            Some(f) => Some(f@),
            None => None,
        }
    }

    pub closed spec fn spec_storage(&self) -> SlabStorage {
        self.storage
    }

    pub closed spec fn spec_kernel(&self) -> KernelKind {
        self.kernel
    }

    pub open spec fn spec_vector_len(&self) -> nat {
        self.spec_storage().spec_vector_len()
    }

    /// Whether `extra` more vectors can be created.
    pub open spec fn has_room(&self, extra: nat) -> bool {
        self.spec_storage().can_grow(extra)
    }

    /// Whether `op` can run now: the operator is well formed, the operation is valid on the
    /// stored vectors, and, where it may create vectors, the slab has room for them.
    pub open spec fn op_ok(&self, op: Operation) -> bool {
        &&& self.wf()
        &&& op_valid(self@, self.field() is Some, op)
        &&& op_growth(op) > 0 ==> self.has_room(op_growth(op))
    }

    /// A well-formed operator has room for no more vectors.
    pub proof fn lemma_wf_room(&self)
        requires
            self.wf(),
        ensures
            self.has_room(0),
    {
        self.storage.lemma_wf_facts();
    }

    /// An operator whose kernel is the portable one, without a GF(256) field.
    pub fn new(vector_len: usize) -> (s: Self)
        ensures
            s.wf(),
            s@ == Map::<usize, Seq<u8>>::empty(),
            s.spec_vector_len() == vector_len,
            s.field() is None,
            s.spec_kernel() == KernelKind::Portable,
            s.spec_storage().spec_num_slots() == 0,
    {
        Self::with_kernel(vector_len, None, KernelKind::Portable)
    }

    /// An operator with GF(256) tables for the primitive polynomial `pp`.
    pub fn new_with_gf256(vector_len: usize, pp: u16) -> (s: Self)
        requires
            is_primitive_polynomial(pp),
        ensures
            s.wf(),
            s@ == Map::<usize, Seq<u8>>::empty(),
            s.spec_vector_len() == vector_len,
            s.field() == Some(pp),
            s.spec_kernel() == KernelKind::Portable,
            s.spec_storage().spec_num_slots() == 0,
    {
        Self::with_kernel(vector_len, Some(Gf256Field::with_polynomial(pp)), KernelKind::Portable)
    }

    /// An operator with an explicit field and kernel.
    pub fn with_kernel(vector_len: usize, gf256: Option<Gf256Field>, kernel: KernelKind) -> (s:
        Self)
        ensures
            s.wf(),
            s@ == Map::<usize, Seq<u8>>::empty(),
            s.spec_vector_len() == vector_len,
            s.field() == (match gf256 {
                Some(f) => Some(f@),
                None => None,
            }),
            s.spec_kernel() == kernel,
            s.spec_storage().spec_num_slots() == 0,
    {
        SlabDataOperator { storage: SlabStorage::new(vector_len), gf256, kernel }
    }

    /// The GF(256) field, if one is set.
    pub fn gf256(&self) -> (r: Option<&Gf256Field>)
        ensures
            r is Some <==> self.field() is Some,
            r is Some ==> self.field() == Some(r->0@),
    {
        match &self.gf256 {
            Some(f) => Some(f),
            None => None,
        }
    }

    /// The underlying slab.
    pub fn storage(&self) -> (r: &SlabStorage)
        ensures
            *r == self.spec_storage(),
    {
        &self.storage
    }

    /// Mutable access to the underlying slab; field and kernel stay as they are.
    pub fn storage_mut(&mut self) -> (r: &mut SlabStorage)
        ensures
            *r == old(self).spec_storage(),
            final(self).spec_storage() == *final(r),
            final(self).field() == old(self).field(),
            final(self).spec_kernel() == old(self).spec_kernel(),
    {
        &mut self.storage
    }

    /// Zeros the listed vectors, creating the missing ones.
    fn ensure_zero(&mut self, list_id: &[usize])
        requires
            old(self).wf(),
            old(self).has_room(list_id@.len()),
        ensures
            final(self).wf(),
            final(self)@ == zero_all(old(self)@, list_id@, old(self).spec_vector_len()),
            final(self).spec_vector_len() == old(self).spec_vector_len(),
            final(self).spec_storage().spec_num_slots() <= old(self).spec_storage().spec_num_slots()
                + list_id@.len(),
            final(self).field() == old(self).field(),
            final(self).spec_kernel() == old(self).spec_kernel(),
    {
        let ghost len = self.spec_vector_len();
        let ghost n0 = self.storage.spec_num_slots();
        let n = list_id.len();
        let mut i: usize = 0;
        while i < n
            invariant
                n == list_id@.len(),
                0 <= i <= n,
                self.wf(),
                self.spec_vector_len() == len,
                self.field() == old(self).field(),
                self.spec_kernel() == old(self).spec_kernel(),
                self.storage.spec_num_slots() <= n0 + i,
                n0 == old(self).storage.spec_num_slots(),
                old(self).has_room(n as nat),
                old(self).spec_vector_len() == len,
                self@ == zero_all(old(self)@, list_id@.take(i as int), len),
            decreases n - i,
        {
            proof {
                self.storage.lemma_room_left(n0, i as nat, 1, n as nat);
            }
            self.storage.ensure_zero_by_id(list_id[i]);
            proof {
                assert(list_id@.take(i + 1).drop_last() =~= list_id@.take(i as int));
            }
            i = i + 1;
        }
        proof {
            assert(list_id@.take(n as int) =~= list_id@);
        }
    }

    /// Multiplies a vector by the primitive element of the field.
    fn multiply_alpha(&mut self, vector_id: usize)
        requires
            old(self).wf(),
            old(self).field() is Some,
            old(self)@.contains_key(vector_id),
        ensures
            final(self).wf(),
            final(self)@ == old(self)@.insert(
                vector_id,
                alpha_bytes(old(self)@[vector_id], field_byte(old(self).field())),
            ),
            final(self).spec_vector_len() == old(self).spec_vector_len(),
            final(self).field() == old(self).field(),
            final(self).spec_kernel() == old(self).spec_kernel(),
            final(self).spec_storage().spec_num_slots() == old(self).spec_storage().spec_num_slots(),
    {
        let slot = self.storage.slot_for_id(vector_id);
        let ghost old_storage = self.storage;
        proof {
            old_storage.lemma_contents_len(vector_id);
            old_storage.lemma_rewrite_is_insert(
                vector_id,
                alpha_bytes(old(self)@[vector_id], field_byte(old(self).field())),
            );
        }
        let kernel = self.kernel;
        match &self.gf256 {
            Some(gf) => {
                let dst = self.storage.slot_slice_mut(slot);
                kernel.mul_alpha_inplace(gf, dst);
            },
            None => {},
        }
    }

    /// Multiplies a vector by a scalar.
    fn multiply_scalar(&mut self, scalar: u8, vector_id: usize)
        requires
            old(self).wf(),
            old(self)@.contains_key(vector_id),
            scalar > 1 ==> old(self).field() is Some,
        ensures
            final(self).wf(),
            final(self)@ == old(self)@.insert(
                vector_id,
                scale_bytes(old(self)@[vector_id], scalar, field_byte(old(self).field())),
            ),
            final(self).spec_vector_len() == old(self).spec_vector_len(),
            final(self).field() == old(self).field(),
            final(self).spec_kernel() == old(self).spec_kernel(),
            final(self).spec_storage().spec_num_slots() == old(self).spec_storage().spec_num_slots(),
    {
        let slot = self.storage.slot_for_id(vector_id);
        let ghost old_storage = self.storage;
        let ghost p = field_byte(self.field());
        let ghost x = old(self)@[vector_id];
        proof {
            old_storage.lemma_contents_len(vector_id);
            old_storage.lemma_rewrite_is_insert(vector_id, scale_bytes(x, scalar, p));
            assert forall|k: int| 0 <= k < x.len() implies #[trigger] scale_bytes(x, scalar, p)[k]
                == (if scalar == 0 {
                0u8
            } else if scalar == 1 {
                x[k]
            } else {
                scale_bytes(x, scalar, p)[k]
            }) by {
                lemma_gf_mul_small(x[k], p);
            }
        }
        if scalar == 0 {
            self.storage.ensure_zero_by_id(vector_id);
            proof {
                assert(scale_bytes(x, scalar, p) =~= zero_bytes(x.len()));
            }
        } else if scalar == 1 {
            proof {
                assert(scale_bytes(x, scalar, p) =~= x);
                assert(old(self)@.insert(vector_id, x) =~= old(self)@);
            }
        } else {
            let kernel = self.kernel;
            match &self.gf256 {
                Some(gf) => {
                    let dst = self.storage.slot_slice_mut(slot);
                    kernel.mul_scalar_inplace(gf, dst, scalar);
                },
                None => {},
            }
        }
    }

    /// `target ^= src` for two stored vectors; a vector added to itself becomes zero.
    fn add_present(&mut self, src_id: usize, target_id: usize)
        requires
            old(self).wf(),
            old(self)@.contains_key(src_id),
            old(self)@.contains_key(target_id),
        ensures
            final(self).wf(),
            final(self)@ == add_one(old(self)@, src_id, target_id),
            final(self).spec_vector_len() == old(self).spec_vector_len(),
            final(self).field() == old(self).field(),
            final(self).spec_kernel() == old(self).spec_kernel(),
            final(self).spec_storage().slots() == old(self).spec_storage().slots(),
            final(self).spec_storage().spec_num_slots() == old(self).spec_storage().spec_num_slots(),
    {
        let target_slot = self.storage.slot_for_id(target_id);
        let src_slot = self.storage.slot_for_id(src_id);
        let ghost old_storage = self.storage;
        let ghost m = old(self)@;
        proof {
            old_storage.lemma_wf_facts();
            old_storage.lemma_contents_len(target_id);
            old_storage.lemma_contents_len(src_id);
            old_storage.lemma_rewrite_is_insert(target_id, xor_bytes(m[target_id], m[src_id]));
        }
        if src_slot == target_slot {
            proof {
                assert(src_id == target_id);
                lemma_xor_self(m[target_id]);
            }
            self.storage.ensure_zero_by_id(target_id);
        } else {
            let kernel = self.kernel;
            let (dst, src) = self.storage.get_pair_mut(target_slot, src_slot);
            kernel.xor_inplace(dst, src);
        }
    }

    /// Adds each listed vector in turn into `target_id`, skipping the missing ones.
    fn add_each(&mut self, list_id: &[usize], target_id: usize)
        requires
            old(self).wf(),
            old(self)@.contains_key(target_id),
        ensures
            final(self).wf(),
            final(self)@ == add_sources(old(self)@, list_id@, target_id),
            final(self).spec_vector_len() == old(self).spec_vector_len(),
            final(self).field() == old(self).field(),
            final(self).spec_kernel() == old(self).spec_kernel(),
            final(self).spec_storage().slots() == old(self).spec_storage().slots(),
            final(self).spec_storage().spec_num_slots() == old(self).spec_storage().spec_num_slots(),
    {
        let n = list_id.len();
        let mut i: usize = 0;
        while i < n
            invariant
                n == list_id@.len(),
                0 <= i <= n,
                self.wf(),
                self@.contains_key(target_id),
                self.spec_vector_len() == old(self).spec_vector_len(),
                self.field() == old(self).field(),
                self.spec_kernel() == old(self).spec_kernel(),
                self.spec_storage().slots() == old(self).spec_storage().slots(),
                self.spec_storage().spec_num_slots() == old(self).spec_storage().spec_num_slots(),
                self@ == add_sources(old(self)@, list_id@.take(i as int), target_id),
            decreases n - i,
        {
            let id = list_id[i];
            if self.storage.contains_id(id) {
                self.add_present(id, target_id);
            }
            proof {
                assert(list_id@.take(i + 1).drop_last() =~= list_id@.take(i as int));
            }
            i = i + 1;
        }
        proof {
            assert(list_id@.take(n as int) =~= list_id@);
        }
    }

    /// Adds the listed vectors into `target_id`; two or three distinct stored sources go
    /// through the fused slab passes.
    fn add_to_vector(&mut self, list_id: &[usize], target_id: usize)
        requires
            old(self).wf(),
            old(self)@.contains_key(target_id),
        ensures
            final(self).wf(),
            final(self)@ == add_sources(old(self)@, list_id@, target_id),
            final(self).spec_vector_len() == old(self).spec_vector_len(),
            final(self).field() == old(self).field(),
            final(self).spec_kernel() == old(self).spec_kernel(),
            final(self).spec_storage().slots() == old(self).spec_storage().slots(),
            final(self).spec_storage().spec_num_slots() == old(self).spec_storage().spec_num_slots(),
    {
        let target_slot = self.storage.slot_for_id(target_id);
        let ghost m = old(self)@;
        let ghost old_storage = self.storage;
        proof {
            old_storage.lemma_wf_facts();
        }
        if list_id.len() == 2 {
            let s0 = list_id[0];
            let s1 = list_id[1];
            match (self.storage.slot_for_id_opt(s0), self.storage.slot_for_id_opt(s1)) {
                (Some(a), Some(b)) => {
                    if a != b && a != target_slot && b != target_slot {
                        proof {
                            old_storage.lemma_contents_len(target_id);
                            old_storage.lemma_contents_len(s0);
                            old_storage.lemma_contents_len(s1);
                            let x = xor_bytes(xor_bytes(m[target_id], m[s0]), m[s1]);
                            old_storage.lemma_rewrite_is_insert(target_id, x);
                            assert(list_id@ =~= seq![s0, s1]);
                            lemma_add_two(m, s0, s1, target_id);
                        }
                        self.storage.xor_two_slots(target_slot, a, b);
                        return;
                    }
                },
                _ => {},
            }
        } else if list_id.len() == 3 {
            let s0 = list_id[0];
            let s1 = list_id[1];
            let s2 = list_id[2];
            match (
                self.storage.slot_for_id_opt(s0),
                self.storage.slot_for_id_opt(s1),
                self.storage.slot_for_id_opt(s2),
            ) {
                (Some(a), Some(b), Some(c)) => {
                    if a != b && a != c && b != c && a != target_slot && b != target_slot && c
                        != target_slot {
                        proof {
                            old_storage.lemma_contents_len(target_id);
                            old_storage.lemma_contents_len(s0);
                            old_storage.lemma_contents_len(s1);
                            old_storage.lemma_contents_len(s2);
                            let x = xor_bytes(
                                xor_bytes(xor_bytes(m[target_id], m[s0]), m[s1]),
                                m[s2],
                            );
                            old_storage.lemma_rewrite_is_insert(target_id, x);
                            assert(list_id@ =~= seq![s0, s1, s2]);
                            lemma_add_three(m, s0, s1, s2, target_id);
                        }
                        self.storage.xor_three_slots(target_slot, a, b, c);
                        return;
                    }
                },
                _ => {},
            }
        }
        self.add_each(list_id, target_id);
    }

    /// Adds `source_id` into each target in turn.
    fn broadcast_add(&mut self, source_id: usize, target_ids: &[usize])
        requires
            old(self).wf(),
            old(self)@.contains_key(source_id),
            forall|i: int| 0 <= i < target_ids@.len() ==> old(self)@.contains_key(#[trigger] target_ids@[i]),
        ensures
            final(self).wf(),
            final(self)@ == broadcast_from(old(self)@, source_id, target_ids@),
            final(self).spec_vector_len() == old(self).spec_vector_len(),
            final(self).field() == old(self).field(),
            final(self).spec_kernel() == old(self).spec_kernel(),
            final(self).spec_storage().slots() == old(self).spec_storage().slots(),
            final(self).spec_storage().spec_num_slots() == old(self).spec_storage().spec_num_slots(),
    {
        let n = target_ids.len();
        let mut i: usize = 0;
        while i < n
            invariant
                n == target_ids@.len(),
                0 <= i <= n,
                self.wf(),
                self@.dom() == old(self)@.dom(),
                old(self)@.contains_key(source_id),
                forall|k: int| 0 <= k < target_ids@.len() ==> old(self)@.contains_key(#[trigger] target_ids@[k]),
                self.spec_vector_len() == old(self).spec_vector_len(),
                self.field() == old(self).field(),
                self.spec_kernel() == old(self).spec_kernel(),
                self.spec_storage().slots() == old(self).spec_storage().slots(),
                self.spec_storage().spec_num_slots() == old(self).spec_storage().spec_num_slots(),
                self@ == broadcast_from(old(self)@, source_id, target_ids@.take(i as int)),
            decreases n - i,
        {
            let target_id = target_ids[i];
            let ghost prev = self@;
            proof {
                assert(old(self)@.contains_key(target_ids@[i as int]));
            }
            self.add_present(source_id, target_id);
            proof {
                assert(target_ids@.take(i + 1).drop_last() =~= target_ids@.take(i as int));
                assert(self@.dom() =~= old(self)@.dom());
            }
            i = i + 1;
        }
        proof {
            assert(target_ids@.take(n as int) =~= target_ids@);
        }
    }

    /// `target += scalar * source`; a zero scalar zeroes the target.
    fn mul_add(&mut self, source_id: usize, scalar: u8, target_id: usize)
        requires
            old(self).wf(),
            old(self)@.contains_key(source_id),
            old(self)@.contains_key(target_id),
            scalar > 1 ==> old(self).field() is Some,
        ensures
            final(self).wf(),
            final(self)@ == (if scalar == 0 {
                old(self)@.insert(target_id, zero_bytes(old(self).spec_vector_len()))
            } else {
                old(self)@.insert(
                    target_id,
                    mul_add_bytes(
                        old(self)@[target_id],
                        old(self)@[source_id],
                        scalar,
                        field_byte(old(self).field()),
                    ),
                )
            }),
            final(self).spec_vector_len() == old(self).spec_vector_len(),
            final(self).field() == old(self).field(),
            final(self).spec_kernel() == old(self).spec_kernel(),
            final(self).spec_storage().slots() == old(self).spec_storage().slots(),
            final(self).spec_storage().spec_num_slots() == old(self).spec_storage().spec_num_slots(),
    {
        let target_slot = self.storage.slot_for_id(target_id);
        let src_slot = self.storage.slot_for_id(source_id);
        let ghost m = old(self)@;
        let ghost p = field_byte(self.field());
        let ghost old_storage = self.storage;
        let ghost y = mul_add_bytes(m[target_id], m[source_id], scalar, p);
        proof {
            old_storage.lemma_wf_facts();
            old_storage.lemma_contents_len(target_id);
            old_storage.lemma_contents_len(source_id);
            old_storage.lemma_rewrite_is_insert(target_id, y);
        }
        if scalar == 0 {
            self.storage.ensure_zero_by_id(target_id);
        } else if scalar == 1 {
            proof {
                assert forall|k: int| 0 <= k < m[target_id].len() implies #[trigger] y[k]
                    == xor_bytes(m[target_id], m[source_id])[k] by {
                    lemma_gf_mul_small(m[source_id][k], p);
                }
                assert(y =~= xor_bytes(m[target_id], m[source_id]));
            }
            self.add_present(source_id, target_id);
        } else {
            let kernel = self.kernel;
            match &self.gf256 {
                Some(gf) => {
                    if src_slot == target_slot {
                        let dst = self.storage.slot_slice_mut(target_slot);
                        let n = dst.len();
                        let mut i: usize = 0;
                        while i < n
                            invariant
                                n == m[target_id].len(),
                                dst@.len() == n,
                                src_slot == target_slot,
                                source_id == target_id,
                                p == poly_byte(gf@),
                                0 <= i <= n,
                                forall|k: int|
                                    0 <= k < i ==> #[trigger] dst@[k] == m[target_id][k] ^ gf_mul(
                                        scalar,
                                        m[target_id][k],
                                        p,
                                    ),
                                forall|k: int| i <= k < n ==> #[trigger] dst@[k] == m[target_id][k],
                            decreases n - i,
                        {
                            let b = dst[i];
                            let mb = gf.mul_lookup(scalar, b);
                            dst[i] = b ^ mb;
                            i = i + 1;
                        }
                        proof {
                            assert(dst@ =~= y);
                        }
                    } else {
                        let (dst, src) = self.storage.get_pair_mut(target_slot, src_slot);
                        kernel.mul_add_inplace(gf, dst, src, scalar);
                    }
                },
                None => {},
            }
        }
    }

    /// Moves a vector to another ID (no bytes move).
    fn move_to(&mut self, src_id: usize, target_id: usize)
        requires
            old(self).wf(),
            src_id != target_id ==> old(self)@.contains_key(src_id),
        ensures
            final(self).wf(),
            final(self)@ == (if src_id == target_id {
                old(self)@
            } else {
                old(self)@.remove(src_id).insert(target_id, old(self)@[src_id])
            }),
            final(self).spec_vector_len() == old(self).spec_vector_len(),
            final(self).field() == old(self).field(),
            final(self).spec_kernel() == old(self).spec_kernel(),
            final(self).spec_storage().spec_num_slots() == old(self).spec_storage().spec_num_slots(),
    {
        self.storage.move_id(src_id, target_id);
    }

    /// Copies a vector to another ID, creating it if needed.
    fn copy_to(&mut self, src_id: usize, target_id: usize)
        requires
            old(self).wf(),
            src_id != target_id ==> old(self)@.contains_key(src_id),
            old(self).has_room(1),
        ensures
            final(self).wf(),
            final(self)@ == (if src_id == target_id {
                old(self)@
            } else {
                old(self)@.insert(target_id, old(self)@[src_id])
            }),
            final(self).spec_vector_len() == old(self).spec_vector_len(),
            final(self).field() == old(self).field(),
            final(self).spec_kernel() == old(self).spec_kernel(),
            final(self).spec_storage().spec_num_slots() <= old(self).spec_storage().spec_num_slots() + 1,
    {
        self.storage.copy_id(src_id, target_id);
    }

    /// Removes a vector.
    fn remove(&mut self, id: usize)
        requires
            old(self).wf(),
            old(self)@.contains_key(id),
        ensures
            final(self).wf(),
            final(self)@ == old(self)@.remove(id),
            final(self).spec_vector_len() == old(self).spec_vector_len(),
            final(self).field() == old(self).field(),
            final(self).spec_kernel() == old(self).spec_kernel(),
            final(self).spec_storage().spec_num_slots() == old(self).spec_storage().spec_num_slots(),
    {
        self.storage.remove_id(id);
    }

    /// Whether `extra` more slots fit: the slot count stays a `usize` and the buffer length
    /// stays within `isize`.
    fn has_room_for(&self, extra: usize) -> (b: bool)
        ensures
            b == self.has_room(extra as nat),
    {
        match self.storage.num_slots().checked_add(extra) {
            None => false,
            Some(total) => match total.checked_mul(self.storage.vector_len()) {
                None => false,
                Some(bytes) => bytes <= isize::MAX as usize,
            },
        }
    }

    /// Whether every listed vector is stored.
    fn all_present(&self, ids: &Vec<usize>) -> (b: bool)
        ensures
            b == (forall|i: int| 0 <= i < ids@.len() ==> self@.contains_key(#[trigger] ids@[i])),
    {
        let n = ids.len();
        let mut i: usize = 0;
        while i < n
            invariant
                n == ids@.len(),
                0 <= i <= n,
                forall|j: int| 0 <= j < i ==> self@.contains_key(#[trigger] ids@[j]),
            decreases n - i,
        {
            if !self.storage.contains_id(ids[i]) {
                return false;
            }
            i = i + 1;
        }
        true
    }

    /// Whether [`Self::execute`] can run `op` now: the vectors it reads or changes in place
    /// are stored, a field is set where a scalar other than zero and one needs one, and the
    /// slab has room for the vectors it may create.
    pub fn can_execute(&self, op: &Operation) -> (b: bool)
        requires
            self.wf(),
        ensures
            b == self.op_ok(*op),
    {
        let has_field = self.gf256.is_some();
        let valid = match op {
            Operation::EnsureZero { .. } => true,
            Operation::MultiplyAlpha { id } => has_field && self.storage.contains_id(*id),
            Operation::MultiplyScalar { scalar, id } => self.storage.contains_id(*id) && (*scalar
                <= 1 || has_field),
            Operation::AddOneToVector { target_id, .. } => self.storage.contains_id(*target_id),
            Operation::AddTwoToVector { target_id, .. } => self.storage.contains_id(*target_id),
            Operation::AddThreeToVector { target_id, .. } => self.storage.contains_id(*target_id),
            Operation::AddToVector { target_id, .. } => self.storage.contains_id(*target_id),
            Operation::BroadcastAdd { src_id, target_ids } => self.storage.contains_id(*src_id)
                && self.all_present(target_ids),
            Operation::MulAdd { src_id, scalar, target_id } => self.storage.contains_id(*target_id)
                && self.storage.contains_id(*src_id) && (*scalar <= 1 || has_field),
            Operation::MoveTo { src_id, target_id } => *src_id == *target_id
                || self.storage.contains_id(*src_id),
            Operation::CopyTo { src_id, target_id } => *src_id == *target_id
                || self.storage.contains_id(*src_id),
            Operation::Remove { id } => self.storage.contains_id(*id),
            Operation::InfoCodedVector { .. } => true,
        };
        let growth: usize = match op {
            Operation::EnsureZero { list_id } => list_id.len(),
            Operation::CopyTo { .. } => 1,
            _ => 0,
        };
        proof {
            self.lemma_wf_room();
        }
        valid && self.has_room_for(growth)
    }

    /// Whether [`Self::insert_vector`] can store `src` under `data_id` now: `src` has the
    /// vector length and, for a new ID, the slab has room for one more vector.
    pub fn can_insert(&self, src: &[u8], data_id: usize) -> (b: bool)
        requires
            self.wf(),
        ensures
            b == (src@.len() == self.spec_vector_len() && (!self@.contains_key(data_id)
                ==> self.has_room(1))),
    {
        src.len() == self.storage.vector_len() && (self.storage.contains_id(data_id)
            || self.has_room_for(1))
    }

    /// Runs one operation on the stored vectors.
    pub fn execute(&mut self, operation: &Operation)
        requires
            old(self).op_ok(*operation),
        ensures
            final(self).wf(),
            final(self)@ == apply_op(
                old(self)@,
                old(self).spec_vector_len(),
                field_byte(old(self).field()),
                *operation,
            ),
            final(self).spec_vector_len() == old(self).spec_vector_len(),
            final(self).field() == old(self).field(),
            final(self).spec_kernel() == old(self).spec_kernel(),
            final(self).spec_storage().spec_num_slots() <= old(self).spec_storage().spec_num_slots()
                + op_growth(*operation),
    {
        proof {
            old(self).lemma_wf_room();
        }
        match operation {
            Operation::EnsureZero { list_id } => self.ensure_zero(list_id.as_slice()),
            Operation::MultiplyAlpha { id } => self.multiply_alpha(*id),
            Operation::MultiplyScalar { scalar, id } => self.multiply_scalar(*scalar, *id),
            Operation::AddOneToVector { src_id, target_id } => {
                let list = [*src_id];
                proof {
                    assert(list@ =~= seq![*src_id]);
                }
                self.add_to_vector(&list, *target_id);
            },
            Operation::AddTwoToVector { s0, s1, target_id } => {
                let list = [*s0, *s1];
                proof {
                    assert(list@ =~= seq![*s0, *s1]);
                }
                self.add_to_vector(&list, *target_id);
            },
            Operation::AddThreeToVector { s0, s1, s2, target_id } => {
                let list = [*s0, *s1, *s2];
                proof {
                    assert(list@ =~= seq![*s0, *s1, *s2]);
                }
                self.add_to_vector(&list, *target_id);
            },
            Operation::AddToVector { list_id, target_id } => {
                self.add_to_vector(list_id.as_slice(), *target_id);
            },
            Operation::BroadcastAdd { src_id, target_ids } => {
                self.broadcast_add(*src_id, target_ids.as_slice());
            },
            Operation::MulAdd { src_id, scalar, target_id } => {
                self.mul_add(*src_id, *scalar, *target_id);
            },
            Operation::MoveTo { src_id, target_id } => self.move_to(*src_id, *target_id),
            Operation::CopyTo { src_id, target_id } => self.copy_to(*src_id, *target_id),
            Operation::Remove { id } => self.remove(*id),
            Operation::InfoCodedVector { .. } => {},
        }
    }

    /// Selects the field: [`GF2_FIELD_POLY`] clears it; a primitive polynomial sets GF(256)
    /// tables for it, keeping the current tables when they already use it.
    pub fn config_finite_field(&mut self, pp: u16)
        requires
            pp == GF2_FIELD_POLY || is_primitive_polynomial(pp),
        ensures
            final(self).wf() == old(self).wf(),
            final(self)@ == old(self)@,
            final(self).spec_storage() == old(self).spec_storage(),
            final(self).spec_kernel() == old(self).spec_kernel(),
            final(self).field() == (if pp == GF2_FIELD_POLY {
                None
            } else {
                Some(pp)
            }),
    {
        if pp == GF2_FIELD_POLY {
            self.gf256 = None;
            return;
        }
        match &self.gf256 {
            Some(gf) => {
                if gf.primitive_polynomial() == pp {
                    return;
                }
            },
            None => {},
        }
        self.gf256 = Some(Gf256Field::with_polynomial(pp));
    }

    /// Uses the field `gf` (its tables), unless the current field already has its polynomial,
    /// in which case the current tables stay.
    pub fn config_finite_field_from(&mut self, gf: Gf256Field)
        ensures
            final(self).wf() == old(self).wf(),
            final(self)@ == old(self)@,
            final(self).spec_storage() == old(self).spec_storage(),
            final(self).spec_kernel() == old(self).spec_kernel(),
            final(self).field() == Some(gf@),
    {
        match &self.gf256 {
            Some(cur) => {
                if cur.primitive_polynomial() == gf.primitive_polynomial() {
                    return;
                }
            },
            None => {},
        }
        self.gf256 = Some(gf);
    }

    /// Stores a copy of `src` under `data_id`, creating the vector if needed.
    pub fn insert_vector(&mut self, src: &[u8], data_id: usize)
        requires
            old(self).wf(),
            src@.len() == old(self).spec_vector_len(),
            !old(self)@.contains_key(data_id) ==> old(self).has_room(1),
        ensures
            final(self).wf(),
            final(self)@ == old(self)@.insert(data_id, src@),
            final(self).spec_vector_len() == old(self).spec_vector_len(),
            final(self).field() == old(self).field(),
            final(self).spec_kernel() == old(self).spec_kernel(),
            final(self).spec_storage().spec_num_slots() <= old(self).spec_storage().spec_num_slots() + 1,
    {
        self.storage.insert_by_id(data_id, src);
    }

    /// The bytes stored under `data_id`.
    pub fn get_vector(&self, data_id: usize) -> (r: &[u8])
        requires
            self.wf(),
            self@.contains_key(data_id),
        ensures
            r@ == self@[data_id],
    {
        self.storage.get_by_id(data_id)
    }
}

impl VectorOperator for SlabDataOperator {
    open spec fn vectors(&self) -> Map<usize, Seq<u8>> {
        self@
    }

    open spec fn vector_length(&self) -> nat {
        self.spec_vector_len()
    }

    open spec fn field_poly(&self) -> Option<u16> {
        self.field()
    }

    open spec fn ready(&self) -> bool {
        self.wf()
    }

    open spec fn room(&self, extra: nat) -> bool {
        self.has_room(extra)
    }

    fn get_vector(&self, data_id: usize) -> (r: &[u8]) {
        SlabDataOperator::get_vector(self, data_id)
    }

    proof fn lemma_room_monotone(&self, fewer: nat, more: nat) {
        self.spec_storage().lemma_room_left(
            self.spec_storage().spec_num_slots(),
            0,
            fewer,
            more,
        );
    }

    fn execute_op(&mut self, op: &Operation) {
        let ghost old_storage = self.spec_storage();
        self.execute(op);
        proof {
            assert forall|k: nat| #[trigger] old(self).room(k + op_growth(*op)) implies self.room(
                k,
            ) by {
                self.spec_storage().lemma_room_left(
                    old_storage.spec_num_slots(),
                    op_growth(*op),
                    k,
                    k + op_growth(*op),
                );
            }
        }
    }
}

} // verus!
