//! Properties that relate several operations on stored vectors.

use crate::gf256::lemma_gf_mul_small;
use crate::gf_kernels::{alpha_bytes, mul_add_bytes, scale_bytes};
use crate::operation::{
    add_one, add_sources, apply_op, apply_ops, broadcast_from, op_growth, op_valid, ops_valid,
    zero_all, Operation,
};
use crate::slab_storage::{xor_bytes, zero_bytes};
use vstd::prelude::*;

verus! {

/// A vector read back after it was written is the vector written, and no other vector
/// changes.
pub proof fn law_read_after_write(
    before: Map<usize, Seq<u8>>,
    after: Map<usize, Seq<u8>>,
    id: usize,
    bytes: Seq<u8>,
)
    requires
        after == before.insert(id, bytes),
    ensures
        after.contains_key(id),
        after[id] == bytes,
        forall|other: usize| other != id ==> #[trigger] after.contains_key(other) == before.contains_key(other),
        forall|other: usize| other != id && before.contains_key(other) ==> #[trigger] after[other] == before[other],
{
}

/// Adding the same stored source into a different target twice restores the target.
pub proof fn law_add_twice_restores(
    m: Map<usize, Seq<u8>>,
    len: nat,
    p: u8,
    src_id: usize,
    target_id: usize,
)
    requires
        m.contains_key(src_id),
        m.contains_key(target_id),
        src_id != target_id,
        m[src_id].len() == len,
        m[target_id].len() == len,
    ensures
        ({
            let op = Operation::AddOneToVector { src_id, target_id };
            apply_op(apply_op(m, len, p, op), len, p, op) == m
        }),
{
    let once = add_sources(m, seq![src_id], target_id);
    assert(seq![src_id].drop_last() =~= Seq::<usize>::empty());
    assert(add_sources(m, Seq::<usize>::empty(), target_id) == m);
    assert(once == m.insert(target_id, xor_bytes(m[target_id], m[src_id])));
    let twice = add_sources(once, seq![src_id], target_id);
    assert(add_sources(once, Seq::<usize>::empty(), target_id) == once);
    let t = m[target_id];
    let s = m[src_id];
    assert(xor_bytes(xor_bytes(t, s), s) =~= t) by {
        assert forall|i: int| 0 <= i < t.len() implies #[trigger] xor_bytes(xor_bytes(t, s), s)[i]
            == t[i] by {
            let a = t[i];
            let b = s[i];
            assert((a ^ b) ^ b == a) by (bit_vector);
        }
    }
    assert(twice =~= m);
}

/// Multiplying by alpha is multiplying by the scalar `2`.
pub proof fn law_alpha_is_scalar_two(m: Map<usize, Seq<u8>>, len: nat, p: u8, id: usize)
    ensures
        apply_op(m, len, p, Operation::MultiplyAlpha { id }) == apply_op(
            m,
            len,
            p,
            Operation::MultiplyScalar { scalar: 2, id },
        ),
{
    assert forall|i: int| 0 <= i < m[id].len() implies #[trigger] alpha_bytes(m[id], p)[i]
        == scale_bytes(m[id], 2, p)[i] by {
        lemma_gf_mul_small(m[id][i], p);
    }
    assert(alpha_bytes(m[id], p) =~= scale_bytes(m[id], 2, p));
}

/// Scaling by one changes nothing; scaling by zero zeroes the vector.
pub proof fn law_scale_by_one_and_zero(m: Map<usize, Seq<u8>>, len: nat, p: u8, id: usize)
    requires
        m.contains_key(id),
    ensures
        apply_op(m, len, p, Operation::MultiplyScalar { scalar: 1, id }) == m,
        apply_op(m, len, p, Operation::MultiplyScalar { scalar: 0, id }) == m.insert(
            id,
            zero_bytes(m[id].len()),
        ),
{
    assert forall|i: int| 0 <= i < m[id].len() implies #[trigger] scale_bytes(m[id], 1, p)[i]
        == m[id][i] && scale_bytes(m[id], 0, p)[i] == 0u8 by {
        lemma_gf_mul_small(m[id][i], p);
    }
    assert(scale_bytes(m[id], 1, p) =~= m[id]);
    assert(scale_bytes(m[id], 0, p) =~= zero_bytes(m[id].len()));
    assert(m.insert(id, m[id]) =~= m);
}

/// A multiply-add by one is a plain add of the source into the target.
pub proof fn law_mul_add_one_is_add(
    m: Map<usize, Seq<u8>>,
    len: nat,
    p: u8,
    src_id: usize,
    target_id: usize,
)
    requires
        m.contains_key(src_id),
        m.contains_key(target_id),
        m[src_id].len() == m[target_id].len(),
    ensures
        apply_op(m, len, p, Operation::MulAdd { src_id, scalar: 1, target_id }) == apply_op(
            m,
            len,
            p,
            Operation::AddOneToVector { src_id, target_id },
        ),
{
    assert(seq![src_id].drop_last() =~= Seq::<usize>::empty());
    assert(add_sources(m, Seq::<usize>::empty(), target_id) == m);
    let t = m[target_id];
    let s = m[src_id];
    assert forall|i: int| 0 <= i < t.len() implies #[trigger] mul_add_bytes(t, s, 1, p)[i]
        == xor_bytes(t, s)[i] by {
        lemma_gf_mul_small(s[i], p);
    }
    assert(mul_add_bytes(t, s, 1, p) =~= xor_bytes(t, s));
}

/// Running two logs one after the other is running their concatenation, and the
/// concatenation is valid exactly when the first log is and the second is valid on its result.
/// With the `ensures` of `replay_operations` (vectors and remaining room), replaying `first`
/// and then `second` leaves the vectors that replaying `first + second` leaves.
pub proof fn law_replay_concat(
    m: Map<usize, Seq<u8>>,
    len: nat,
    p: u8,
    has_field: bool,
    first: Seq<Operation>,
    second: Seq<Operation>,
)
    ensures
        apply_ops(m, len, p, first + second) == apply_ops(apply_ops(m, len, p, first), len, p, second),
        ops_valid(m, len, p, has_field, first + second) == (ops_valid(m, len, p, has_field, first)
            && ops_valid(apply_ops(m, len, p, first), len, p, has_field, second)),
    decreases first.len(),
{
    if first.len() == 0 {
        assert(first + second =~= second);
    } else {
        assert((first + second)[0] == first[0]);
        assert((first + second).drop_first() =~= first.drop_first() + second);
        law_replay_concat(apply_op(m, len, p, first[0]), len, p, has_field, first.drop_first(), second);
    }
}

/// Adding one, two or three listed vectors is `AddToVector` with that list: the same effect,
/// the same validity and the same growth. A coded-vector marker changes nothing.
pub proof fn law_fixed_arity_adds_are_lists(
    m: Map<usize, Seq<u8>>,
    len: nat,
    p: u8,
    has_field: bool,
    s0: usize,
    s1: usize,
    s2: usize,
    t: usize,
    one: Vec<usize>,
    two: Vec<usize>,
    three: Vec<usize>,
    coded_id: usize,
    data_id: usize,
)
    requires
        one@ == seq![s0],
        two@ == seq![s0, s1],
        three@ == seq![s0, s1, s2],
    ensures
        ({
            let a = Operation::AddOneToVector { src_id: s0, target_id: t };
            let b = Operation::AddToVector { list_id: one, target_id: t };
            &&& apply_op(m, len, p, a) == apply_op(m, len, p, b)
            &&& op_valid(m, has_field, a) == op_valid(m, has_field, b)
            &&& op_growth(a) == op_growth(b)
        }),
        ({
            let a = Operation::AddTwoToVector { s0, s1, target_id: t };
            let b = Operation::AddToVector { list_id: two, target_id: t };
            &&& apply_op(m, len, p, a) == apply_op(m, len, p, b)
            &&& op_valid(m, has_field, a) == op_valid(m, has_field, b)
            &&& op_growth(a) == op_growth(b)
        }),
        ({
            let a = Operation::AddThreeToVector { s0, s1, s2, target_id: t };
            let b = Operation::AddToVector { list_id: three, target_id: t };
            &&& apply_op(m, len, p, a) == apply_op(m, len, p, b)
            &&& op_valid(m, has_field, a) == op_valid(m, has_field, b)
            &&& op_growth(a) == op_growth(b)
        }),
        apply_op(m, len, p, Operation::InfoCodedVector { coded_id, data_id }) == m,
{
}

/// Replaying a log ends with one step of its last operation on what the rest left, and a
/// log of one operation is that operation.
pub proof fn law_replay_one_step(
    m: Map<usize, Seq<u8>>,
    len: nat,
    p: u8,
    ops: Seq<Operation>,
    op: Operation,
)
    ensures
        apply_ops(m, len, p, seq![op]) == apply_op(m, len, p, op),
        apply_ops(m, len, p, ops.push(op)) == apply_op(apply_ops(m, len, p, ops), len, p, op),
{
    let one = seq![op];
    assert(one.drop_first() =~= Seq::<Operation>::empty());
    assert(apply_ops(apply_op(m, len, p, op), len, p, Seq::<Operation>::empty()) == apply_op(
        m,
        len,
        p,
        op,
    ));
    law_replay_concat(m, len, p, false, ops, one);
    assert(ops + one =~= ops.push(op));
    let mid = apply_ops(m, len, p, ops);
    assert(apply_ops(apply_op(mid, len, p, op), len, p, Seq::<Operation>::empty()) == apply_op(
        mid,
        len,
        p,
        op,
    ));
}

/// Every stored vector is `len` bytes long.
pub open spec fn all_of_len(m: Map<usize, Seq<u8>>, len: nat) -> bool {
    forall|id: usize| #[trigger] m.contains_key(id) ==> m[id].len() == len
}

proof fn lemma_zero_all_len(m: Map<usize, Seq<u8>>, list: Seq<usize>, len: nat)
    requires
        all_of_len(m, len),
    ensures
        all_of_len(zero_all(m, list, len), len),
    decreases list.len(),
{
    if list.len() > 0 {
        lemma_zero_all_len(m, list.drop_last(), len);
    }
}

proof fn lemma_add_sources_len(m: Map<usize, Seq<u8>>, list: Seq<usize>, target: usize, len: nat)
    requires
        all_of_len(m, len),
        m.contains_key(target),
    ensures
        all_of_len(add_sources(m, list, target), len),
        add_sources(m, list, target).contains_key(target),
    decreases list.len(),
{
    if list.len() > 0 {
        lemma_add_sources_len(m, list.drop_last(), target, len);
        let prev = add_sources(m, list.drop_last(), target);
        assert(all_of_len(add_one(prev, list.last(), target), len));
    }
}

proof fn lemma_broadcast_len(m: Map<usize, Seq<u8>>, src: usize, targets: Seq<usize>, len: nat)
    requires
        all_of_len(m, len),
        m.contains_key(src),
        forall|i: int| 0 <= i < targets.len() ==> m.contains_key(#[trigger] targets[i]),
    ensures
        all_of_len(broadcast_from(m, src, targets), len),
        broadcast_from(m, src, targets).dom() == m.dom(),
    decreases targets.len(),
{
    if targets.len() > 0 {
        assert forall|i: int| 0 <= i < targets.drop_last().len() implies m.contains_key(
            #[trigger] targets.drop_last()[i],
        ) by {
            assert(targets.drop_last()[i] == targets[i]);
        }
        lemma_broadcast_len(m, src, targets.drop_last(), len);
        assert(m.contains_key(targets[targets.len() - 1]));
        assert(broadcast_from(m, src, targets).dom() =~= m.dom());
    }
}

/// Every operation that can run keeps every stored vector at the common vector length.
pub proof fn law_operations_keep_vector_length(
    m: Map<usize, Seq<u8>>,
    len: nat,
    p: u8,
    has_field: bool,
    op: Operation,
)
    requires
        all_of_len(m, len),
        op_valid(m, has_field, op),
    ensures
        all_of_len(apply_op(m, len, p, op), len),
{
    match op {
        Operation::EnsureZero { list_id } => lemma_zero_all_len(m, list_id@, len),
        Operation::AddOneToVector { src_id, target_id } => lemma_add_sources_len(
            m,
            seq![src_id],
            target_id,
            len,
        ),
        Operation::AddTwoToVector { s0, s1, target_id } => lemma_add_sources_len(
            m,
            seq![s0, s1],
            target_id,
            len,
        ),
        Operation::AddThreeToVector { s0, s1, s2, target_id } => lemma_add_sources_len(
            m,
            seq![s0, s1, s2],
            target_id,
            len,
        ),
        Operation::AddToVector { list_id, target_id } => lemma_add_sources_len(
            m,
            list_id@,
            target_id,
            len,
        ),
        Operation::BroadcastAdd { src_id, target_ids } => lemma_broadcast_len(
            m,
            src_id,
            target_ids@,
            len,
        ),
        _ => {},
    }
}

/// A whole log that can run keeps every stored vector at the common vector length.
pub proof fn law_replay_keeps_vector_length(
    m: Map<usize, Seq<u8>>,
    len: nat,
    p: u8,
    has_field: bool,
    ops: Seq<Operation>,
)
    requires
        all_of_len(m, len),
        ops_valid(m, len, p, has_field, ops),
    ensures
        all_of_len(apply_ops(m, len, p, ops), len),
    decreases ops.len(),
{
    if ops.len() > 0 {
        law_operations_keep_vector_length(m, len, p, has_field, ops[0]);
        law_replay_keeps_vector_length(apply_op(m, len, p, ops[0]), len, p, has_field, ops.drop_first());
    }
}

} // verus!
