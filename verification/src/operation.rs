//! Operations on stored data vectors, and what each one does to the vectors.
//!
//! The vectors are modelled as a map from data ID to bytes. The semantics are those of the
//! reference vector operator: a source that is missing is skipped, adding a vector to itself
//! zeroes it, and a multiply-add by zero zeroes the target.

use crate::gf256::poly_byte;
use crate::gf_kernels::{alpha_bytes, mul_add_bytes, scale_bytes};
use crate::slab_storage::{xor_bytes, zero_bytes};
use vstd::prelude::*;

verus! {

/// One atomic operation on data vectors identified by their IDs.
#[derive(Debug, PartialEq, Eq)]
pub enum Operation {
    /// Zero out the vectors with the given IDs (creating the missing ones).
    EnsureZero { list_id: Vec<usize> },
    /// Multiply a vector element-wise by the primitive element alpha.
    MultiplyAlpha { id: usize },
    /// Multiply a vector element-wise by a scalar.
    MultiplyScalar { scalar: u8, id: usize },
    /// XOR one source vector into a target.
    AddOneToVector { src_id: usize, target_id: usize },
    /// XOR two source vectors into a target.
    AddTwoToVector { s0: usize, s1: usize, target_id: usize },
    /// XOR three source vectors into a target.
    AddThreeToVector { s0: usize, s1: usize, s2: usize, target_id: usize },
    /// XOR several source vectors into a target.
    AddToVector { list_id: Vec<usize>, target_id: usize },
    /// XOR one source vector into each of several targets.
    BroadcastAdd { src_id: usize, target_ids: Vec<usize> },
    /// `target += scalar * src`.
    MulAdd { src_id: usize, scalar: u8, target_id: usize },
    /// Move a vector from `src_id` to `target_id`, invalidating the source.
    MoveTo { src_id: usize, target_id: usize },
    /// Copy a vector from `src_id` to `target_id`, keeping the source.
    CopyTo { src_id: usize, target_id: usize },
    /// Remove a vector.
    Remove { id: usize },
    /// Marker associating a coded vector ID with its data vector ID.
    InfoCodedVector { coded_id: usize, data_id: usize },
}

/// The byte that selects the field's reduction; no field gives `0`.
pub open spec fn field_byte(field: Option<u16>) -> u8 {
    match field {
        Some(pp) => poly_byte(pp),
        None => 0u8,
    }
}

/// `target ^= src` when `src` is stored (with the values before the step); otherwise nothing.
pub open spec fn add_one(m: Map<usize, Seq<u8>>, src: usize, target: usize) -> Map<
    usize,
    Seq<u8>,
> {
    if m.contains_key(src) {
        m.insert(target, xor_bytes(m[target], m[src]))
    } else {
        m
    }
}

/// Adds the sources one after the other, in list order, into `target`.
pub open spec fn add_sources(m: Map<usize, Seq<u8>>, list: Seq<usize>, target: usize) -> Map<
    usize,
    Seq<u8>,
>
    decreases list.len(),
{
    if list.len() == 0 {
        m
    } else {
        add_one(add_sources(m, list.drop_last(), target), list.last(), target)
    }
}

/// Adds `src` into each target in turn (with the values current at each step).
pub open spec fn broadcast_from(m: Map<usize, Seq<u8>>, src: usize, targets: Seq<usize>) -> Map<
    usize,
    Seq<u8>,
>
    decreases targets.len(),
{
    if targets.len() == 0 {
        m
    } else {
        let prev = broadcast_from(m, src, targets.drop_last());
        prev.insert(targets.last(), xor_bytes(prev[targets.last()], prev[src]))
    }
}

/// Sets every listed vector to `len` zero bytes, creating the missing ones.
pub open spec fn zero_all(m: Map<usize, Seq<u8>>, list: Seq<usize>, len: nat) -> Map<
    usize,
    Seq<u8>,
>
    decreases list.len(),
{
    if list.len() == 0 {
        m
    } else {
        zero_all(m, list.drop_last(), len).insert(list.last(), zero_bytes(len))
    }
}

/// What an operation does to the stored vectors (vectors of `len` bytes, field byte `p`).
pub open spec fn apply_op(m: Map<usize, Seq<u8>>, len: nat, p: u8, op: Operation) -> Map<
    usize,
    Seq<u8>,
> {
    match op {
        Operation::EnsureZero { list_id } => zero_all(m, list_id@, len),
        Operation::MultiplyAlpha { id } => m.insert(id, alpha_bytes(m[id], p)),
        Operation::MultiplyScalar { scalar, id } => m.insert(id, scale_bytes(m[id], scalar, p)),
        Operation::AddOneToVector { src_id, target_id } => add_sources(
            m,
            seq![src_id],
            target_id,
        ),
        Operation::AddTwoToVector { s0, s1, target_id } => add_sources(
            m,
            seq![s0, s1],
            target_id,
        ),
        Operation::AddThreeToVector { s0, s1, s2, target_id } => add_sources(
            m,
            seq![s0, s1, s2],
            target_id,
        ),
        Operation::AddToVector { list_id, target_id } => add_sources(m, list_id@, target_id),
        Operation::BroadcastAdd { src_id, target_ids } => broadcast_from(m, src_id, target_ids@),
        Operation::MulAdd { src_id, scalar, target_id } => if scalar == 0 {
            m.insert(target_id, zero_bytes(len))
        } else {
            m.insert(target_id, mul_add_bytes(m[target_id], m[src_id], scalar, p))
        },
        Operation::MoveTo { src_id, target_id } => if src_id == target_id {
            m
        } else {
            m.remove(src_id).insert(target_id, m[src_id])
        },
        Operation::CopyTo { src_id, target_id } => if src_id == target_id {
            m
        } else {
            m.insert(target_id, m[src_id])
        },
        Operation::Remove { id } => m.remove(id),
        Operation::InfoCodedVector { .. } => m,
    }
}

/// Whether an operation can run on the stored vectors `m` (with or without a GF(256) field)
/// without failing: the vectors it reads or changes in place exist, and scalars other than
/// zero and one have a field to multiply in.
pub open spec fn op_valid(m: Map<usize, Seq<u8>>, has_field: bool, op: Operation) -> bool {
    match op {
        Operation::EnsureZero { .. } => true,
        Operation::MultiplyAlpha { id } => has_field && m.contains_key(id),
        Operation::MultiplyScalar { scalar, id } => m.contains_key(id) && (scalar > 1
            ==> has_field),
        Operation::AddOneToVector { target_id, .. } => m.contains_key(target_id),
        Operation::AddTwoToVector { target_id, .. } => m.contains_key(target_id),
        Operation::AddThreeToVector { target_id, .. } => m.contains_key(target_id),
        Operation::AddToVector { target_id, .. } => m.contains_key(target_id),
        Operation::BroadcastAdd { src_id, target_ids } => m.contains_key(src_id) && forall|
            i: int,
        |
            0 <= i < target_ids@.len() ==> m.contains_key(#[trigger] target_ids@[i]),
        Operation::MulAdd { src_id, scalar, target_id } => m.contains_key(target_id)
            && m.contains_key(src_id) && (scalar > 1 ==> has_field),
        Operation::MoveTo { src_id, target_id } => src_id == target_id || m.contains_key(src_id),
        Operation::CopyTo { src_id, target_id } => src_id == target_id || m.contains_key(src_id),
        Operation::Remove { id } => m.contains_key(id),
        Operation::InfoCodedVector { .. } => true,
    }
}

/// An upper bound on the number of new vectors an operation creates.
pub open spec fn op_growth(op: Operation) -> nat {
    match op {
        Operation::EnsureZero { list_id } => list_id@.len(),
        Operation::CopyTo { .. } => 1,
        _ => 0,
    }
}

/// Whether every operation of `ops` can run in turn, starting from the vectors `m`.
pub open spec fn ops_valid(m: Map<usize, Seq<u8>>, len: nat, p: u8, has_field: bool, ops: Seq<
    Operation,
>) -> bool
    decreases ops.len(),
{
    if ops.len() == 0 {
        true
    } else {
        op_valid(m, has_field, ops[0]) && ops_valid(
            apply_op(m, len, p, ops[0]),
            len,
            p,
            has_field,
            ops.drop_first(),
        )
    }
}

/// The vectors after running every operation of `ops` in turn.
pub open spec fn apply_ops(m: Map<usize, Seq<u8>>, len: nat, p: u8, ops: Seq<Operation>) -> Map<
    usize,
    Seq<u8>,
>
    decreases ops.len(),
{
    if ops.len() == 0 {
        m
    } else {
        apply_ops(apply_op(m, len, p, ops[0]), len, p, ops.drop_first())
    }
}

/// The total growth bound of a sequence of operations.
pub open spec fn ops_growth(ops: Seq<Operation>) -> nat
    decreases ops.len(),
{
    if ops.len() == 0 {
        0
    } else {
        op_growth(ops[0]) + ops_growth(ops.drop_first())
    }
}

/// Two operations with the same variant and the same field values.
pub open spec fn same_op(a: Operation, b: Operation) -> bool {
    match a {
        Operation::EnsureZero { list_id } => b matches Operation::EnsureZero { list_id: l }
            && l@ == list_id@,
        Operation::AddToVector { list_id, target_id } => b matches Operation::AddToVector {
            list_id: l,
            target_id: t,
        } && l@ == list_id@ && t == target_id,
        Operation::BroadcastAdd { src_id, target_ids } => b matches Operation::BroadcastAdd {
            src_id: s,
            target_ids: l,
        } && l@ == target_ids@ && s == src_id,
        _ => a == b,
    }
}

/// A copy of a list of IDs.
pub(crate) fn copy_ids(v: &Vec<usize>) -> (r: Vec<usize>)
    ensures
        r@ == v@,
{
    let mut r = Vec::new();
    let n = v.len();
    let mut i: usize = 0;
    while i < n
        invariant
            n == v@.len(),
            0 <= i <= n,
            r@ == v@.take(i as int),
        decreases n - i,
    {
        r.push(v[i]);
        proof {
            assert(v@.take(i + 1) =~= v@.take(i as int).push(v@[i as int]));
        }
        i = i + 1;
    }
    proof {
        assert(v@.take(n as int) =~= v@);
    }
    r
}

impl Clone for Operation {
    fn clone(&self) -> (r: Self)
        ensures
            same_op(*self, r),
    {
        match self {
            Operation::EnsureZero { list_id } => Operation::EnsureZero { list_id: copy_ids(list_id) },
            Operation::MultiplyAlpha { id } => Operation::MultiplyAlpha { id: *id },
            Operation::MultiplyScalar { scalar, id } => Operation::MultiplyScalar {
                scalar: *scalar,
                id: *id,
            },
            Operation::AddOneToVector { src_id, target_id } => Operation::AddOneToVector {
                src_id: *src_id,
                target_id: *target_id,
            },
            Operation::AddTwoToVector { s0, s1, target_id } => Operation::AddTwoToVector {
                s0: *s0,
                s1: *s1,
                target_id: *target_id,
            },
            Operation::AddThreeToVector { s0, s1, s2, target_id } => Operation::AddThreeToVector {
                s0: *s0,
                s1: *s1,
                s2: *s2,
                target_id: *target_id,
            },
            Operation::AddToVector { list_id, target_id } => Operation::AddToVector {
                list_id: copy_ids(list_id),
                target_id: *target_id,
            },
            Operation::BroadcastAdd { src_id, target_ids } => Operation::BroadcastAdd {
                src_id: *src_id,
                target_ids: copy_ids(target_ids),
            },
            Operation::MulAdd { src_id, scalar, target_id } => Operation::MulAdd {
                src_id: *src_id,
                scalar: *scalar,
                target_id: *target_id,
            },
            Operation::MoveTo { src_id, target_id } => Operation::MoveTo {
                src_id: *src_id,
                target_id: *target_id,
            },
            Operation::CopyTo { src_id, target_id } => Operation::CopyTo {
                src_id: *src_id,
                target_id: *target_id,
            },
            Operation::Remove { id } => Operation::Remove { id: *id },
            Operation::InfoCodedVector { coded_id, data_id } => Operation::InfoCodedVector {
                coded_id: *coded_id,
                data_id: *data_id,
            },
        }
    }
}

/// Operations that are the same field by field act the same.
pub proof fn lemma_same_op_same_effect(a: Operation, b: Operation, m: Map<usize, Seq<u8>>, len: nat, p: u8, has_field: bool)
    requires
        same_op(a, b),
    ensures
        apply_op(m, len, p, b) == apply_op(m, len, p, a),
        op_valid(m, has_field, b) == op_valid(m, has_field, a),
        op_growth(b) == op_growth(a),
{
}

} // verus!
