//! Replaying a recorded operation log on an operator.

use crate::operation::{apply_op, apply_ops, field_byte, op_growth, op_valid, ops_growth, ops_valid, Operation};
use vstd::prelude::*;

verus! {

/// An operator that runs [`Operation`]s on vectors stored by data ID.
pub trait VectorOperator {
    /// The stored vectors by data ID.
    spec fn vectors(&self) -> Map<usize, Seq<u8>>;

    /// The length of every stored vector.
    spec fn vector_length(&self) -> nat;

    /// The configured GF(256) field polynomial, if any.
    spec fn field_poly(&self) -> Option<u16>;

    /// Whether the operator is in a consistent state.
    spec fn ready(&self) -> bool;

    /// Whether `extra` more vectors can be created.
    spec fn room(&self, extra: nat) -> bool;

    /// The bytes stored under `data_id`.
    fn get_vector(&self, data_id: usize) -> (r: &[u8])
        requires
            self.ready(),
            self.vectors().contains_key(data_id),
        ensures
            r@ == self.vectors()[data_id],
    ;

    /// Room for more vectors is room for fewer.
    proof fn lemma_room_monotone(&self, fewer: nat, more: nat)
        requires
            self.ready(),
            self.room(more),
            fewer <= more,
        ensures
            self.room(fewer),
    ;

    /// Runs one operation.
    fn execute_op(&mut self, op: &Operation)
        requires
            old(self).ready(),
            op_valid(old(self).vectors(), old(self).field_poly() is Some, *op),
            op_growth(*op) > 0 ==> old(self).room(op_growth(*op)),
        ensures
            final(self).ready(),
            final(self).vectors() == apply_op(
                old(self).vectors(),
                old(self).vector_length(),
                field_byte(old(self).field_poly()),
                *op,
            ),
            final(self).vector_length() == old(self).vector_length(),
            final(self).field_poly() == old(self).field_poly(),
            forall|k: nat| #[trigger]
                old(self).room(k + op_growth(*op)) ==> final(self).room(k),
    ;
}

/// Replays a recorded operation log, in order.
///
/// The caller aligns the finite field and inserts the message vectors before replaying a
/// delayed encoder log. Whatever room the operator had beyond what the log may create is left
/// after it, so logs can be replayed one after another.
pub fn replay_operations<T: VectorOperator>(operator: &mut T, ops: &[Operation])
    requires
        old(operator).ready(),
        ops_valid(
            old(operator).vectors(),
            old(operator).vector_length(),
            field_byte(old(operator).field_poly()),
            old(operator).field_poly() is Some,
            ops@,
        ),
        ops_growth(ops@) > 0 ==> old(operator).room(ops_growth(ops@)),
    ensures
        final(operator).ready(),
        final(operator).vectors() == apply_ops(
            old(operator).vectors(),
            old(operator).vector_length(),
            field_byte(old(operator).field_poly()),
            ops@,
        ),
        final(operator).vector_length() == old(operator).vector_length(),
        final(operator).field_poly() == old(operator).field_poly(),
        forall|k: nat| #[trigger]
            old(operator).room(k + ops_growth(ops@)) ==> final(operator).room(k),
{
    let ghost len = old(operator).vector_length();
    let ghost field = old(operator).field_poly();
    let ghost p = field_byte(field);
    let ghost total = ops_growth(ops@);
    let n = ops.len();
    let mut i: usize = 0;
    proof {
        assert(ops@.skip(0) =~= ops@);
    }
    while i < n
        invariant
            n == ops@.len(),
            0 <= i <= n,
            operator.ready(),
            operator.vector_length() == len,
            operator.field_poly() == field,
            p == field_byte(field),
            total == ops_growth(ops@),
            ops_valid(operator.vectors(), len, p, field is Some, ops@.skip(i as int)),
            ops_growth(ops@.skip(i as int)) > 0 ==> operator.room(ops_growth(ops@.skip(i as int))),
            forall|k: nat| #[trigger]
                old(operator).room(k + total) ==> operator.room(k + ops_growth(ops@.skip(i as int))),
            apply_ops(operator.vectors(), len, p, ops@.skip(i as int)) == apply_ops(
                old(operator).vectors(),
                len,
                p,
                ops@,
            ),
        decreases n - i,
    {
        let ghost rest = ops@.skip(i as int);
        let ghost g_op = op_growth(ops@[i as int]);
        let ghost g_next = ops_growth(ops@.skip(i + 1));
        proof {
            assert(rest[0] == ops@[i as int]);
            assert(rest.drop_first() =~= ops@.skip(i + 1));
            assert(ops_growth(rest) == g_op + g_next);
            if g_op > 0 {
                operator.lemma_room_monotone(g_op, ops_growth(rest));
            }
        }
        let ghost before = *operator;
        operator.execute_op(&ops[i]);
        proof {
            if g_next > 0 {
                assert(before.room(g_next + g_op));
            }
            assert forall|k: nat| #[trigger] old(operator).room(k + total) implies operator.room(
                k + g_next,
            ) by {
                assert(before.room(k + ops_growth(rest)));
                assert(before.room((k + g_next) + g_op));
            }
        }
        i = i + 1;
    }
    proof {
        assert forall|k: nat| #[trigger] old(operator).room(k + total) implies operator.room(k) by {
            assert(ops@.skip(n as int) =~= Seq::<Operation>::empty());
            assert(operator.room(k + ops_growth(ops@.skip(n as int))));
        }
    }
}

} // verus!
