//! Differential-testing helpers: random operation streams that stay valid, and snapshots
//! of operator state.

use crate::operation::{
    add_one, add_sources, apply_op, broadcast_from, op_valid, ops_valid, zero_all, Operation,
};
use crate::replay::VectorOperator;
use crate::slab_data_operator::GF2_FIELD_POLY;
use rand::rngs::StdRng;
use rand::Rng;
use std::collections::{HashMap, HashSet};
use vstd::std_specs::iter::IteratorSpec;
use vstd::prelude::*;

verus! {

broadcast use vstd::std_specs::hash::group_hash_axioms;

#[verifier::external_type_specification]
#[verifier::external_body]
pub struct ExStdRng(StdRng);

/// `Rng::gen_range(0..upper)`: a value drawn from `0..upper`; the range must not be empty.
#[verifier::external_body]
fn gen_below(rng: &mut StdRng, upper: usize) -> (r: usize)
    requires
        upper > 0,
    ensures
        r < upper,
{
    rng.gen_range(0..upper)
}

/// The IDs known to exist after `op` runs on vectors with the IDs `live`.
pub open spec fn live_after(live: Set<usize>, op: Operation) -> Set<usize> {
    match op {
        Operation::EnsureZero { list_id } => live + list_id@.to_set(),
        Operation::MultiplyAlpha { id } => live.insert(id),
        Operation::MultiplyScalar { id, .. } => live.insert(id),
        Operation::AddOneToVector { src_id, target_id } => live.insert(src_id).insert(target_id),
        Operation::AddTwoToVector { s0, s1, target_id } => live.insert(s0).insert(s1).insert(
            target_id,
        ),
        Operation::AddThreeToVector { s0, s1, s2, target_id } => live.insert(s0).insert(s1).insert(
            s2,
        ).insert(target_id),
        Operation::AddToVector { list_id, target_id } => (live + list_id@.to_set()).insert(
            target_id,
        ),
        Operation::BroadcastAdd { src_id, target_ids } => live.insert(src_id) + target_ids@.to_set(),
        Operation::MulAdd { src_id, target_id, .. } => live.insert(src_id).insert(target_id),
        Operation::MoveTo { src_id, target_id } => live.remove(src_id).insert(target_id),
        Operation::CopyTo { src_id, target_id } => live.insert(src_id).insert(target_id),
        Operation::Remove { id } => live.remove(id),
        Operation::InfoCodedVector { .. } => live,
    }
}

/// Vectors with the IDs `live` (their bytes do not matter for validity).
pub open spec fn ids_map(live: Set<usize>) -> Map<usize, Seq<u8>> {
    Map::new(|k: usize| live.contains(k), |k: usize| Seq::<u8>::empty())
}

/// Every ID that `op` reads from is live.
pub open spec fn sources_live(live: Set<usize>, op: Operation) -> bool {
    match op {
        Operation::EnsureZero { .. } => true,
        Operation::MultiplyAlpha { id } => live.contains(id),
        Operation::MultiplyScalar { id, .. } => live.contains(id),
        Operation::AddOneToVector { src_id, .. } => live.contains(src_id),
        Operation::AddTwoToVector { s0, s1, .. } => live.contains(s0) && live.contains(s1),
        Operation::AddThreeToVector { s0, s1, s2, .. } => live.contains(s0) && live.contains(s1)
            && live.contains(s2),
        Operation::AddToVector { list_id, .. } => forall|i: int|
            0 <= i < list_id@.len() ==> live.contains(#[trigger] list_id@[i]),
        Operation::BroadcastAdd { src_id, .. } => live.contains(src_id),
        Operation::MulAdd { src_id, .. } => live.contains(src_id),
        Operation::MoveTo { src_id, .. } => live.contains(src_id),
        Operation::CopyTo { src_id, .. } => live.contains(src_id),
        Operation::Remove { id } => live.contains(id),
        Operation::InfoCodedVector { .. } => true,
    }
}

/// `op` is valid on vectors with the IDs `live` and reads only live IDs.
pub open spec fn op_ok_on(live: Set<usize>, has_field: bool, op: Operation) -> bool {
    op_valid(ids_map(live), has_field, op) && sources_live(live, op)
}

/// Whether every operation of `ops` is valid in turn on vectors that start with the IDs
/// `live`, tracking IDs with [`live_after`].
pub open spec fn ops_valid_on(live: Set<usize>, has_field: bool, ops: Seq<Operation>) -> bool
    decreases ops.len(),
{
    if ops.len() == 0 {
        true
    } else {
        op_ok_on(live, has_field, ops[0]) && ops_valid_on(
            live_after(live, ops[0]),
            has_field,
            ops.drop_first(),
        )
    }
}

/// The live IDs after all of `ops`.
pub open spec fn live_after_all(live: Set<usize>, ops: Seq<Operation>) -> Set<usize>
    decreases ops.len(),
{
    if ops.len() == 0 {
        live
    } else {
        live_after_all(live_after(live, ops[0]), ops.drop_first())
    }
}

proof fn lemma_ops_valid_on_push(live: Set<usize>, has_field: bool, ops: Seq<Operation>, op: Operation)
    requires
        ops_valid_on(live, has_field, ops),
        op_ok_on(live_after_all(live, ops), has_field, op),
    ensures
        ops_valid_on(live, has_field, ops.push(op)),
        live_after_all(live, ops.push(op)) == live_after(live_after_all(live, ops), op),
    decreases ops.len(),
{
    if ops.len() == 0 {
        assert(ops.push(op).drop_first() =~= Seq::<Operation>::empty());
        assert(ops.push(op)[0] == op);
        assert(ops_valid_on(live_after(live, op), has_field, Seq::<Operation>::empty()));
        assert(live_after_all(live_after(live, op), Seq::<Operation>::empty()) == live_after(live, op));
        assert(live_after_all(live, ops) == live);
    } else {
        assert(ops.push(op).drop_first() =~= ops.drop_first().push(op));
        assert(ops.push(op)[0] == ops[0]);
        lemma_ops_valid_on_push(live_after(live, ops[0]), has_field, ops.drop_first(), op);
    }
}

proof fn lemma_push_to_set(s: Seq<usize>, x: usize)
    ensures
        s.push(x).to_set() == s.to_set().insert(x),
{
    assert forall|y: usize| #[trigger] s.push(x).to_set().contains(y) == s.to_set().insert(x).contains(y) by {
        if s.push(x).contains(y) {
            let k = choose|k: int| 0 <= k < s.push(x).len() && s.push(x)[k] == y;
            if k < s.len() {
                assert(s[k] == y);
            }
        }
        if s.contains(y) {
            let k = choose|k: int| 0 <= k < s.len() && s[k] == y;
            assert(s.push(x)[k] == y);
        }
        if y == x {
            assert(s.push(x)[s.len() as int] == y);
        }
    }
    assert(s.push(x).to_set() =~= s.to_set().insert(x));
}

/// Adds every ID of `list` to `live`.
fn extend_live(live: &mut HashSet<usize>, list: &[usize])
    ensures
        final(live)@ == old(live)@ + list@.to_set(),
{
    let n = list.len();
    let mut i: usize = 0;
    while i < n
        invariant
            n == list@.len(),
            0 <= i <= n,
            live@ == old(live)@ + list@.take(i as int).to_set(),
        decreases n - i,
    {
        live.insert(list[i]);
        proof {
            assert(list@.take(i + 1) =~= list@.take(i as int).push(list@[i as int]));
            lemma_push_to_set(list@.take(i as int), list@[i as int]);
            assert(live@ =~= old(live)@ + list@.take(i + 1).to_set());
        }
        i = i + 1;
    }
    proof {
        assert(list@.take(n as int) =~= list@);
    }
}

/// Updates the set of live IDs for one operation.
pub fn apply_op_to_live_set(live: &mut HashSet<usize>, op: &Operation)
    ensures
        final(live)@ == live_after(old(live)@, *op),
{
    match op {
        Operation::EnsureZero { list_id } => {
            extend_live(live, list_id.as_slice());
        },
        Operation::MultiplyAlpha { id } | Operation::MultiplyScalar { id, .. } => {
            live.insert(*id);
        },
        Operation::AddOneToVector { src_id, target_id } => {
            live.insert(*src_id);
            live.insert(*target_id);
        },
        Operation::AddTwoToVector { s0, s1, target_id } => {
            live.insert(*s0);
            live.insert(*s1);
            live.insert(*target_id);
        },
        Operation::AddThreeToVector { s0, s1, s2, target_id } => {
            live.insert(*s0);
            live.insert(*s1);
            live.insert(*s2);
            live.insert(*target_id);
        },
        Operation::AddToVector { list_id, target_id } => {
            extend_live(live, list_id.as_slice());
            live.insert(*target_id);
        },
        Operation::BroadcastAdd { src_id, target_ids } => {
            live.insert(*src_id);
            extend_live(live, target_ids.as_slice());
        },
        Operation::MulAdd { src_id, target_id, .. } => {
            live.insert(*src_id);
            live.insert(*target_id);
        },
        Operation::MoveTo { src_id, target_id } => {
            live.remove(src_id);
            live.insert(*target_id);
        },
        Operation::CopyTo { src_id, target_id } => {
            live.insert(*src_id);
            live.insert(*target_id);
        },
        Operation::Remove { id } => {
            live.remove(id);
        },
        Operation::InfoCodedVector { .. } => {},
    }
}

/// A live ID chosen at random.
fn pick_live(rng: &mut StdRng, live: &HashSet<usize>) -> (id: usize)
    requires
        live@.len() > 0,
    ensures
        live@.contains(id),
{
    let idx = gen_below(rng, live.len());
    let mut count: usize = 0;
    proof {
        let r = vstd::std_specs::hash::spec_hash_keys_iter(live).remaining();
        assert forall|i: int| 0 <= i < r.len() implies live@.contains(*#[trigger] r[i]) by {
            assert(r.unref()[i] == *r[i]);
            assert(r.unref().to_set().contains(r.unref()[i]));
        }
    }
    for x in it: live.iter()
        invariant
            count == it.index(),
            count <= idx,
            idx < live@.len(),
            it.seq().len() == live@.len(),
            forall|i: int| 0 <= i < it.seq().len() ==> live@.contains(*#[trigger] it.seq()[i]),
    {
        if count == idx {
            return *x;
        }
        count = count + 1;
    }
    proof {
        assert(false);
    }
    0
}

/// The scalars a random operation may carry: `0, 1, 2, 7, 0xFF` with a GF(256) field, else
/// `0` or `1`.
pub open spec fn random_scalar(gf256: bool, s: u8) -> bool {
    if gf256 {
        s == 0 || s == 1 || s == 2 || s == 7 || s == 0xFF
    } else {
        s == 0 || s == 1
    }
}

/// The operations that one random draw can give on the live IDs `live`: each reads and
/// writes only live IDs, lists exactly one ID, and carries a scalar from [`random_scalar`].
/// Alpha, scalar multiplication and coded-vector markers (with a coded ID below 1000) come
/// only with a GF(256) field; moves (between two different IDs) and removals only while more
/// than one ID is live.
pub open spec fn random_op_on(live: Set<usize>, gf256: bool, op: Operation) -> bool {
    match op {
        Operation::EnsureZero { list_id } => list_id@.len() == 1 && live.contains(list_id@[0]),
        Operation::MultiplyAlpha { id } => gf256 && live.contains(id),
        Operation::MultiplyScalar { scalar, id } => gf256 && random_scalar(gf256, scalar)
            && live.contains(id),
        Operation::AddToVector { list_id, target_id } => list_id@.len() == 1 && live.contains(
            list_id@[0],
        ) && live.contains(target_id),
        Operation::BroadcastAdd { src_id, target_ids } => target_ids@.len() == 1 && live.contains(
            src_id,
        ) && live.contains(target_ids@[0]),
        Operation::MulAdd { src_id, scalar, target_id } => random_scalar(gf256, scalar)
            && live.contains(src_id) && live.contains(target_id),
        Operation::MoveTo { src_id, target_id } => src_id != target_id && live.len() > 1
            && live.contains(src_id) && live.contains(target_id),
        Operation::CopyTo { src_id, target_id } => live.contains(src_id) && live.contains(
            target_id,
        ),
        Operation::Remove { id } => live.len() > 1 && live.contains(id),
        Operation::InfoCodedVector { coded_id, data_id } => gf256 && coded_id < 1000
            && live.contains(data_id),
        _ => false,
    }
}

/// The number of scalars a random operation draws from: six with a GF(256) field, else two.
pub open spec fn scalar_count(gf256: bool) -> nat {
    if gf256 {
        6
    } else {
        2
    }
}

/// The scalar at `index` of the list a random operation draws from: `0, 1, 2, 7, 2, 0xFF` with
/// a GF(256) field (`2` once as itself and once as the primitive element), else `0, 1`.
pub open spec fn scalar_at(gf256: bool, index: int) -> u8 {
    if gf256 {
        seq![0u8, 1u8, 2u8, 7u8, 2u8, 0xFFu8][index]
    } else {
        seq![0u8, 1u8][index]
    }
}

/// Whether the draw `choice` takes a scalar index as its extra draw.
pub open spec fn draws_scalar(gf256: bool, choice: usize) -> bool {
    if gf256 {
        choice == 2 || choice == 5
    } else {
        choice == 3
    }
}

/// The operation that one set of draws gives: the two picked live IDs `id_a` and `id_b`, the
/// operation `choice`, and the extra draw `extra` (a scalar index where [`draws_scalar`], a
/// coded ID for a coded-vector marker), with `live_len` IDs live. Moves and removals need
/// more than one live ID (and a move two different IDs); otherwise they fall back to the last
/// choice.
pub open spec fn drawn_op(
    gf256: bool,
    live_len: nat,
    id_a: usize,
    id_b: usize,
    choice: usize,
    extra: usize,
    op: Operation,
) -> bool {
    let s = scalar_at(gf256, extra as int);
    let many = live_len > 1;
    if gf256 {
        if choice == 0 {
            op matches Operation::EnsureZero { list_id } && list_id@ == seq![id_a]
        } else if choice == 1 {
            op == Operation::MultiplyAlpha { id: id_a }
        } else if choice == 2 {
            op == Operation::MultiplyScalar { scalar: s, id: id_a }
        } else if choice == 3 {
            op matches Operation::AddToVector { list_id, target_id } && list_id@ == seq![id_a]
                && target_id == id_b
        } else if choice == 4 {
            op matches Operation::BroadcastAdd { src_id, target_ids } && src_id == id_a
                && target_ids@ == seq![id_b]
        } else if choice == 5 {
            op == Operation::MulAdd { src_id: id_a, scalar: s, target_id: id_b }
        } else if choice == 6 && id_a != id_b && many {
            op == Operation::MoveTo { src_id: id_a, target_id: id_b }
        } else if choice == 7 {
            op == Operation::CopyTo { src_id: id_a, target_id: id_b }
        } else if choice == 8 && many {
            op == Operation::Remove { id: id_a }
        } else {
            op == Operation::InfoCodedVector { coded_id: extra, data_id: id_a }
        }
    } else {
        if choice == 1 {
            op matches Operation::AddToVector { list_id, target_id } && list_id@ == seq![id_a]
                && target_id == id_b
        } else if choice == 2 {
            op matches Operation::BroadcastAdd { src_id, target_ids } && src_id == id_a
                && target_ids@ == seq![id_b]
        } else if choice == 3 {
            op == Operation::MulAdd { src_id: id_a, scalar: s, target_id: id_b }
        } else if choice == 4 && id_a != id_b && many {
            op == Operation::MoveTo { src_id: id_a, target_id: id_b }
        } else if choice == 5 {
            op == Operation::CopyTo { src_id: id_a, target_id: id_b }
        } else if choice == 6 && many {
            op == Operation::Remove { id: id_a }
        } else {
            op matches Operation::EnsureZero { list_id } && list_id@ == seq![id_a]
        }
    }
}

/// `op` is what some draws of two live IDs give on the live IDs `live`.
pub open spec fn drawn_from(live: Set<usize>, gf256: bool, op: Operation) -> bool {
    exists|id_a: usize, id_b: usize, choice: usize, extra: usize|
        live.contains(id_a) && live.contains(id_b) && #[trigger] drawn_op(
            gf256,
            live.len(),
            id_a,
            id_b,
            choice,
            extra,
            op,
        )
}

/// The operation for one set of draws (see [`drawn_op`]).
pub fn random_op_from_draws(
    gf256: bool,
    live_len: usize,
    id_a: usize,
    id_b: usize,
    choice: usize,
    extra: usize,
) -> (op: Operation)
    requires
        draws_scalar(gf256, choice) ==> extra < scalar_count(gf256),
    ensures
        drawn_op(gf256, live_len as nat, id_a, id_b, choice, extra, op),
{
    let many = live_len > 1;
    if gf256 {
        let scalars = [0u8, 1u8, 2u8, 7u8, 2u8, 0xFFu8];
        proof {
            assert(scalars@ =~= seq![0u8, 1u8, 2u8, 7u8, 2u8, 0xFFu8]);
        }
        if choice == 0 {
            let list_id = vec![id_a];
            proof {
                assert(list_id@ =~= seq![id_a]);
            }
            Operation::EnsureZero { list_id }
        } else if choice == 1 {
            Operation::MultiplyAlpha { id: id_a }
        } else if choice == 2 {
            Operation::MultiplyScalar { scalar: scalars[extra], id: id_a }
        } else if choice == 3 {
            let list_id = vec![id_a];
            proof {
                assert(list_id@ =~= seq![id_a]);
            }
            Operation::AddToVector { list_id, target_id: id_b }
        } else if choice == 4 {
            let target_ids = vec![id_b];
            proof {
                assert(target_ids@ =~= seq![id_b]);
            }
            Operation::BroadcastAdd { src_id: id_a, target_ids }
        } else if choice == 5 {
            Operation::MulAdd { src_id: id_a, scalar: scalars[extra], target_id: id_b }
        } else if choice == 6 && id_a != id_b && many {
            Operation::MoveTo { src_id: id_a, target_id: id_b }
        } else if choice == 7 {
            Operation::CopyTo { src_id: id_a, target_id: id_b }
        } else if choice == 8 && many {
            Operation::Remove { id: id_a }
        } else {
            Operation::InfoCodedVector { coded_id: extra, data_id: id_a }
        }
    } else {
        let scalars = [0u8, 1u8];
        proof {
            assert(scalars@ =~= seq![0u8, 1u8]);
        }
        if choice == 1 {
            let list_id = vec![id_a];
            proof {
                assert(list_id@ =~= seq![id_a]);
            }
            Operation::AddToVector { list_id, target_id: id_b }
        } else if choice == 2 {
            let target_ids = vec![id_b];
            proof {
                assert(target_ids@ =~= seq![id_b]);
            }
            Operation::BroadcastAdd { src_id: id_a, target_ids }
        } else if choice == 3 {
            Operation::MulAdd { src_id: id_a, scalar: scalars[extra], target_id: id_b }
        } else if choice == 4 && id_a != id_b && many {
            Operation::MoveTo { src_id: id_a, target_id: id_b }
        } else if choice == 5 {
            Operation::CopyTo { src_id: id_a, target_id: id_b }
        } else if choice == 6 && many {
            Operation::Remove { id: id_a }
        } else {
            let list_id = vec![id_a];
            proof {
                assert(list_id@ =~= seq![id_a]);
            }
            Operation::EnsureZero { list_id }
        }
    }
}

/// Draws on live IDs give an operation of [`random_op_on`], valid on those IDs.
proof fn lemma_drawn_op_is_random(
    live: Set<usize>,
    gf256: bool,
    id_a: usize,
    id_b: usize,
    choice: usize,
    extra: usize,
    op: Operation,
)
    requires
        live.contains(id_a),
        live.contains(id_b),
        draws_scalar(gf256, choice) ==> extra < scalar_count(gf256),
        !draws_scalar(gf256, choice) && gf256 ==> extra < 1000,
        drawn_op(gf256, live.len(), id_a, id_b, choice, extra, op),
    ensures
        random_op_on(live, gf256, op),
        op_ok_on(live, gf256, op),
{
    let m = ids_map(live);
    assert(m.contains_key(id_a) && m.contains_key(id_b));
    if draws_scalar(gf256, choice) {
        let s = scalar_at(gf256, extra as int);
        assert(random_scalar(gf256, s));
    }
    match op {
        Operation::EnsureZero { list_id } => {
            assert(list_id@[0] == id_a);
        },
        Operation::AddToVector { list_id, target_id } => {
            assert(list_id@[0] == id_a);
        },
        Operation::BroadcastAdd { src_id, target_ids } => {
            assert(target_ids@[0] == id_b);
        },
        _ => {},
    }
}

/// One random operation on live IDs; when no ID is live, zeroes all of `ids`.
fn generate_one_random_op(
    rng: &mut StdRng,
    ids: &[usize],
    live: &mut HashSet<usize>,
    gf256_pp: u16,
) -> (op: Operation)
    ensures
        final(live)@ == old(live)@,
        op_ok_on(old(live)@, gf256_pp != GF2_FIELD_POLY, op),
        old(live)@.len() == 0 ==> (op matches Operation::EnsureZero { list_id } && list_id@
            == ids@),
        old(live)@.len() > 0 ==> random_op_on(old(live)@, gf256_pp != GF2_FIELD_POLY, op),
        old(live)@.len() > 0 ==> drawn_from(old(live)@, gf256_pp != GF2_FIELD_POLY, op),
{
    if live.len() == 0 {
        let mut list_id: Vec<usize> = Vec::new();
        let n = ids.len();
        let mut i: usize = 0;
        while i < n
            invariant
                n == ids@.len(),
                0 <= i <= n,
                list_id@ == ids@.take(i as int),
            decreases n - i,
        {
            list_id.push(ids[i]);
            proof {
                assert(ids@.take(i + 1) =~= ids@.take(i as int).push(ids@[i as int]));
            }
            i = i + 1;
        }
        proof {
            assert(ids@.take(n as int) =~= ids@);
        }
        return Operation::EnsureZero { list_id };
    }
    let gf256 = gf256_pp != GF2_FIELD_POLY;
    let id_a = pick_live(rng, live);
    let id_b = pick_live(rng, live);
    let many = live.len() > 1;
    let choice = if gf256 {
        gen_below(rng, 10)
    } else {
        gen_below(rng, 7)
    };
    let scalar_draw = if gf256 {
        choice == 2 || choice == 5
    } else {
        choice == 3
    };
    let coded_draw = gf256 && choice != 0 && choice != 1 && choice != 2 && choice != 3 && choice
        != 4 && choice != 5 && !(choice == 6 && id_a != id_b && many) && choice != 7 && !(choice
        == 8 && many);
    let extra = if scalar_draw {
        if gf256 {
            gen_below(rng, 6)
        } else {
            gen_below(rng, 2)
        }
    } else if coded_draw {
        gen_below(rng, 1000)
    } else {
        0
    };
    let op = random_op_from_draws(gf256, live.len(), id_a, id_b, choice, extra);
    proof {
        lemma_drawn_op_is_random(live@, gf256, id_a, id_b, choice, extra, op);
        assert(drawn_op(gf256, live@.len(), id_a, id_b, choice, extra, op));
        assert(drawn_from(live@, gf256, op));
        assert(live@ == old(live)@);
    }
    op
}

/// Operation `j` of a generated stream for the field polynomial `gf256_pp`: drawn by
/// [`random_op_on`] on the IDs live before it (starting from `ids`), or, when no ID is live
/// then, zeroing exactly `ids`.
pub open spec fn random_step(ids: Seq<usize>, gf256_pp: u16, ops: Seq<Operation>, j: int) -> bool {
    let live = live_after_all(ids.to_set(), ops.take(j));
    if live.len() == 0 {
        ops[j] matches Operation::EnsureZero { list_id } && list_id@ == ids
    } else {
        random_op_on(live, gf256_pp != GF2_FIELD_POLY, ops[j])
    }
}

/// Generates `count` random operations referencing only `ids` (all assumed to exist at the
/// start), tracking which IDs are live so that every operation is valid in turn.
pub fn generate_random_ops(rng: &mut StdRng, ids: &[usize], count: usize, gf256_pp: u16) -> (ops:
    Vec<Operation>)
    ensures
        ops@.len() == count,
        ops_valid_on(ids@.to_set(), gf256_pp != GF2_FIELD_POLY, ops@),
        forall|j: int|
            0 <= j < count ==> #[trigger] random_step(ids@, gf256_pp, ops@, j),
{
    let ghost hf = gf256_pp != GF2_FIELD_POLY;
    let mut live: HashSet<usize> = HashSet::new();
    extend_live(&mut live, ids);
    proof {
        assert(live@ =~= ids@.to_set());
    }
    let mut ops: Vec<Operation> = Vec::new();
    let mut i: usize = 0;
    while i < count
        invariant
            0 <= i <= count,
            ops@.len() == i,
            hf == (gf256_pp != GF2_FIELD_POLY),
            live@ == live_after_all(ids@.to_set(), ops@),
            ops_valid_on(ids@.to_set(), hf, ops@),
            forall|j: int| 0 <= j < i ==> #[trigger] random_step(ids@, gf256_pp, ops@, j),
        decreases count - i,
    {
        let ghost before = ops@;
        let op = generate_one_random_op(rng, ids, &mut live, gf256_pp);
        apply_op_to_live_set(&mut live, &op);
        proof {
            lemma_ops_valid_on_push(ids@.to_set(), hf, ops@, op);
        }
        ops.push(op);
        proof {
            assert forall|j: int| 0 <= j < i + 1 implies #[trigger] random_step(
                ids@,
                gf256_pp,
                ops@,
                j,
            ) by {
                if j < i {
                    assert(ops@.take(j) =~= before.take(j));
                    assert(ops@[j] == before[j]);
                    assert(random_step(ids@, gf256_pp, before, j));
                } else {
                    assert(ops@.take(j) =~= before);
                    assert(ops@[j] == op);
                }
            }
        }
        i = i + 1;
    }
    ops
}

proof fn lemma_zero_all_dom(m: Map<usize, Seq<u8>>, list: Seq<usize>, len: nat)
    ensures
        zero_all(m, list, len).dom() == m.dom() + list.to_set(),
    decreases list.len(),
{
    if list.len() > 0 {
        lemma_zero_all_dom(m, list.drop_last(), len);
        assert(list =~= list.drop_last().push(list.last()));
        lemma_push_to_set(list.drop_last(), list.last());
        assert(zero_all(m, list, len).dom() =~= m.dom() + list.to_set());
    } else {
        assert(m.dom() + list.to_set() =~= m.dom());
    }
}

proof fn lemma_add_sources_dom(m: Map<usize, Seq<u8>>, list: Seq<usize>, t: usize)
    requires
        m.contains_key(t),
    ensures
        add_sources(m, list, t).dom() == m.dom(),
    decreases list.len(),
{
    if list.len() > 0 {
        lemma_add_sources_dom(m, list.drop_last(), t);
        let prev = add_sources(m, list.drop_last(), t);
        assert(add_one(prev, list.last(), t).dom() =~= prev.dom());
    }
}

proof fn lemma_broadcast_dom(m: Map<usize, Seq<u8>>, src: usize, targets: Seq<usize>)
    requires
        forall|i: int| 0 <= i < targets.len() ==> m.contains_key(#[trigger] targets[i]),
    ensures
        broadcast_from(m, src, targets).dom() == m.dom(),
    decreases targets.len(),
{
    if targets.len() > 0 {
        assert forall|i: int| 0 <= i < targets.drop_last().len() implies m.contains_key(
            #[trigger] targets.drop_last()[i],
        ) by {
            assert(targets.drop_last()[i] == targets[i]);
        }
        lemma_broadcast_dom(m, src, targets.drop_last());
        assert(m.contains_key(targets[targets.len() - 1]));
        assert(broadcast_from(m, src, targets).dom() =~= m.dom());
    }
}

proof fn lemma_seq_in_set(s: Seq<usize>, live: Set<usize>)
    requires
        forall|i: int| 0 <= i < s.len() ==> live.contains(#[trigger] s[i]),
    ensures
        live + s.to_set() == live,
{
    assert forall|x: usize| #[trigger] (live + s.to_set()).contains(x) implies live.contains(x) by {
        if s.to_set().contains(x) {
            let k = choose|k: int| 0 <= k < s.len() && s[k] == x;
        }
    }
    assert(live + s.to_set() =~= live);
}

/// The IDs stored after a valid operation are the IDs that [`live_after`] tracks.
proof fn lemma_apply_dom(m: Map<usize, Seq<u8>>, len: nat, p: u8, has_field: bool, op: Operation)
    requires
        op_ok_on(m.dom(), has_field, op),
    ensures
        op_valid(m, has_field, op),
        apply_op(m, len, p, op).dom() == live_after(m.dom(), op),
{
    let live = m.dom();
    assert(ids_map(live).dom() =~= live);
    match op {
        Operation::EnsureZero { list_id } => {
            lemma_zero_all_dom(m, list_id@, len);
        },
        Operation::AddOneToVector { src_id, target_id } => {
            lemma_add_sources_dom(m, seq![src_id], target_id);
            assert(live.insert(src_id).insert(target_id) =~= live);
        },
        Operation::AddTwoToVector { s0, s1, target_id } => {
            lemma_add_sources_dom(m, seq![s0, s1], target_id);
            assert(live.insert(s0).insert(s1).insert(target_id) =~= live);
        },
        Operation::AddThreeToVector { s0, s1, s2, target_id } => {
            lemma_add_sources_dom(m, seq![s0, s1, s2], target_id);
            assert(live.insert(s0).insert(s1).insert(s2).insert(target_id) =~= live);
        },
        Operation::AddToVector { list_id, target_id } => {
            lemma_add_sources_dom(m, list_id@, target_id);
            lemma_seq_in_set(list_id@, live);
            assert((live + list_id@.to_set()).insert(target_id) =~= live);
        },
        Operation::BroadcastAdd { src_id, target_ids } => {
            lemma_broadcast_dom(m, src_id, target_ids@);
            assert(forall|i: int| 0 <= i < target_ids@.len() ==> ids_map(live).contains_key(#[trigger] target_ids@[i]));
            lemma_seq_in_set(target_ids@, live);
            assert(live.insert(src_id) =~= live);
        },
        Operation::MoveTo { src_id, target_id } => {
            assert(apply_op(m, len, p, op).dom() =~= live_after(live, op));
        },
        Operation::CopyTo { src_id, target_id } => {
            assert(apply_op(m, len, p, op).dom() =~= live_after(live, op));
        },
        _ => {
            assert(apply_op(m, len, p, op).dom() =~= live_after(live, op));
        },
    }
}

/// Every operation stream that [`generate_random_ops`] can return is valid, in turn, on any
/// stored vectors whose IDs are exactly the starting IDs.
pub proof fn lemma_generated_ops_valid(
    m: Map<usize, Seq<u8>>,
    len: nat,
    p: u8,
    has_field: bool,
    ops: Seq<Operation>,
)
    requires
        ops_valid_on(m.dom(), has_field, ops),
    ensures
        ops_valid(m, len, p, has_field, ops),
    decreases ops.len(),
{
    if ops.len() > 0 {
        lemma_apply_dom(m, len, p, has_field, ops[0]);
        lemma_generated_ops_valid(apply_op(m, len, p, ops[0]), len, p, has_field, ops.drop_first());
    }
}

/// The payloads of a set of tracked data IDs.
#[derive(Debug, PartialEq, Eq)]
pub struct OperatorSnapshot {
    vectors: HashMap<usize, Vec<u8>>,
}

impl View for OperatorSnapshot {
    type V = Map<usize, Seq<u8>>;

    closed spec fn view(&self) -> Map<usize, Seq<u8>> {
        self.vectors@.map_values(|v: Vec<u8>| v@)
    }
}

impl OperatorSnapshot {
    /// The vectors of `operator` stored under the IDs in `ids` (all of which must exist).
    pub fn capture<T: VectorOperator>(operator: &T, ids: &HashSet<usize>) -> (s: Self)
        requires
            operator.ready(),
            forall|id: usize| #[trigger] ids@.contains(id) ==> operator.vectors().contains_key(id),
        ensures
            s@ == operator.vectors().restrict(ids@),
    {
        let mut vectors: HashMap<usize, Vec<u8>> = HashMap::new();
        let ghost want = operator.vectors().restrict(ids@);
        proof {
            let r = vstd::std_specs::hash::spec_hash_keys_iter(ids).remaining();
            assert forall|i: int| 0 <= i < r.len() implies ids@.contains(*#[trigger] r[i]) by {
                assert(r.unref()[i] == *r[i]);
                assert(r.unref().to_set().contains(r.unref()[i]));
            }
            assert forall|id: usize| #[trigger] ids@.contains(id) implies exists|i: int|
                0 <= i < r.len() && *r[i] == id by {
                assert(r.unref().to_set().contains(id));
                let k = choose|k: int| 0 <= k < r.unref().len() && r.unref()[k] == id;
                assert(*r[k] == id);
            }
        }
        for x in it: ids.iter()
            invariant
                operator.ready(),
                forall|id: usize| #[trigger] ids@.contains(id) ==> operator.vectors().contains_key(id),
                forall|i: int| 0 <= i < it.seq().len() ==> ids@.contains(*#[trigger] it.seq()[i]),
                it.seq().len() == ids@.len(),
                forall|id: usize|
                    #[trigger] vectors@.contains_key(id) ==> ids@.contains(id) && vectors@[id]@
                        == operator.vectors()[id],
                forall|id: usize|
                    #[trigger] ids@.contains(id) && !vectors@.contains_key(id) ==> exists|i: int|
                        it.index() <= i < it.seq().len() && *it.seq()[i] == id,
        {
            let id = *x;
            let bytes = vstd::slice::slice_to_vec(operator.get_vector(id));
            vectors.insert(id, bytes);
        }
        let s = OperatorSnapshot { vectors };
        proof {
            assert forall|id: usize| #[trigger] s@.contains_key(id) == want.contains_key(id) by {
                if want.contains_key(id) && !s@.contains_key(id) {
                    assert(ids@.contains(id) && !vectors@.contains_key(id));
                }
            }
            assert(s@ =~= want);
        }
        s
    }
}

} // verus!
