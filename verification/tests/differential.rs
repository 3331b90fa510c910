use fountain_engine::traits::DataOperator;
use fountain_engine::types::Operation as EngineOperation;
use fountain_operators::operator_testing::apply_op_to_live_set;
use fountain_operators::{
    generate_random_ops, Operation, SimdDataOperator, SlabDataOperator, GF2_FIELD_POLY,
};
use fountain_utility::VecDataOperater;
use rand::rngs::StdRng;
use rand::{Rng, SeedableRng};
use std::collections::{HashMap, HashSet};

fn to_engine(op: &Operation) -> EngineOperation {
    match op {
        Operation::EnsureZero { list_id } => EngineOperation::EnsureZero { list_id: list_id.clone() },
        Operation::MultiplyAlpha { id } => EngineOperation::MultiplyAlpha { id: *id },
        Operation::MultiplyScalar { scalar, id } => {
            EngineOperation::MultiplyScalar { scalar: *scalar, id: *id }
        }
        Operation::AddOneToVector { src_id, target_id } => {
            EngineOperation::AddOneToVector { src_id: *src_id, target_id: *target_id }
        }
        Operation::AddTwoToVector { s0, s1, target_id } => {
            EngineOperation::AddTwoToVector { s0: *s0, s1: *s1, target_id: *target_id }
        }
        Operation::AddThreeToVector { s0, s1, s2, target_id } => {
            EngineOperation::AddThreeToVector { s0: *s0, s1: *s1, s2: *s2, target_id: *target_id }
        }
        Operation::AddToVector { list_id, target_id } => {
            EngineOperation::AddToVector { list_id: list_id.clone(), target_id: *target_id }
        }
        Operation::BroadcastAdd { src_id, target_ids } => {
            EngineOperation::BroadcastAdd { src_id: *src_id, target_ids: target_ids.clone() }
        }
        Operation::MulAdd { src_id, scalar, target_id } => {
            EngineOperation::MulAdd { src_id: *src_id, scalar: *scalar, target_id: *target_id }
        }
        Operation::MoveTo { src_id, target_id } => {
            EngineOperation::MoveTo { src_id: *src_id, target_id: *target_id }
        }
        Operation::CopyTo { src_id, target_id } => {
            EngineOperation::CopyTo { src_id: *src_id, target_id: *target_id }
        }
        Operation::Remove { id } => EngineOperation::Remove { id: *id },
        Operation::InfoCodedVector { coded_id, data_id } => {
            EngineOperation::InfoCodedVector { coded_id: *coded_id, data_id: *data_id }
        }
    }
}

/// An operator under test: the reference vector operator or one of the slab operators.
enum Subject {
    Vec(VecDataOperater),
    Slab(SlabDataOperator),
    Simd(SimdDataOperator),
}

impl Subject {
    fn config(&mut self, pp: u16) {
        match self {
            Subject::Vec(v) => v.config_finite_field(pp),
            Subject::Slab(s) => s.config_finite_field(pp),
            Subject::Simd(s) => s.config_finite_field(pp),
        }
    }

    fn insert(&mut self, data: &[u8], id: usize) {
        match self {
            Subject::Vec(v) => v.insert_vector(data, id),
            Subject::Slab(s) => s.insert_vector(data, id),
            Subject::Simd(s) => s.insert_vector(data, id),
        }
    }

    fn run(&mut self, op: &Operation) {
        match self {
            Subject::Vec(v) => v.execute(&to_engine(op)),
            Subject::Slab(s) => {
                assert!(s.can_execute(op), "invalid operation {op:?}");
                s.execute(op)
            }
            Subject::Simd(s) => {
                assert!(s.can_execute(op), "invalid operation {op:?}");
                s.execute(op)
            }
        }
    }

    fn get(&self, id: usize) -> Vec<u8> {
        match self {
            Subject::Vec(v) => v.get_vector(id).to_vec(),
            Subject::Slab(s) => s.get_vector(id).to_vec(),
            Subject::Simd(s) => s.get_vector(id).to_vec(),
        }
    }

    fn snapshot(&self, ids: &HashSet<usize>) -> HashMap<usize, Vec<u8>> {
        ids.iter().map(|&id| (id, self.get(id))).collect()
    }
}

fn assert_operators_equivalent(
    left: &mut Subject,
    right: &mut Subject,
    vector_len: usize,
    initial_vectors: &[(usize, Vec<u8>)],
    ops: &[Operation],
) {
    let mut live = HashSet::new();
    for (id, data) in initial_vectors {
        assert_eq!(data.len(), vector_len);
        left.insert(data, *id);
        right.insert(data, *id);
        live.insert(*id);
    }
    for op in ops {
        apply_op_to_live_set(&mut live, op);
        left.run(op);
        right.run(op);
    }
    assert_eq!(
        left.snapshot(&live),
        right.snapshot(&live),
        "operator states diverged after {} operations",
        ops.len()
    );
}

fn differential_test_random_ops(
    left: &mut Subject,
    right: &mut Subject,
    vector_len: usize,
    num_ids: usize,
    num_ops: usize,
    seed: u64,
    gf256_pp: u16,
) {
    left.config(gf256_pp);
    right.config(gf256_pp);
    let mut rng = StdRng::seed_from_u64(seed);
    let ids: Vec<usize> = (0..num_ids).collect();
    let mut initial = Vec::new();
    for &id in &ids {
        let mut v = vec![0u8; vector_len];
        rng.fill(&mut v[..]);
        initial.push((id, v));
    }
    let ops = generate_random_ops(&mut rng, &ids, num_ops, gf256_pp);
    assert_eq!(ops.len(), num_ops);
    assert_operators_equivalent(left, right, vector_len, &initial, &ops);
}

fn vec_gf256(len: usize, pp: u16) -> Subject {
    Subject::Vec(VecDataOperater::new_with_gf256(len, pp))
}

#[test]
fn vec_vs_vec_identity_gf256() {
    let mut a = vec_gf256(64, 0x11D);
    let mut b = vec_gf256(64, 0x11D);
    differential_test_random_ops(&mut a, &mut b, 64, 6, 200, 42, 0x11D);
}

#[test]
fn vec_vs_vec_identity_gf2() {
    let mut a = Subject::Vec(VecDataOperater::new(16));
    let mut b = Subject::Vec(VecDataOperater::new(16));
    differential_test_random_ops(&mut a, &mut b, 16, 5, 150, 99, GF2_FIELD_POLY);
}

#[test]
fn slab_vs_vec_gf256() {
    let len = 64;
    let mut slab = Subject::Slab(SlabDataOperator::new_with_gf256(len, 0x11D));
    let mut vec = vec_gf256(len, 0x11D);
    differential_test_random_ops(&mut slab, &mut vec, len, 6, 200, 42, 0x11D);
}

#[test]
fn slab_vs_vec_gf2() {
    let len = 16;
    let mut slab = Subject::Slab(SlabDataOperator::new(len));
    let mut vec = Subject::Vec(VecDataOperater::new(len));
    differential_test_random_ops(&mut slab, &mut vec, len, 5, 150, 99, GF2_FIELD_POLY);
}

#[test]
fn slab_vs_vec_vector_lengths() {
    for len in [1usize, 3, 64] {
        let mut slab = Subject::Slab(SlabDataOperator::new_with_gf256(len, 0x11D));
        let mut vec = vec_gf256(len, 0x11D);
        differential_test_random_ops(&mut slab, &mut vec, len, 4, 80, 1000 + len as u64, 0x11D);
    }
}

#[test]
fn simd_vs_vec_gf256() {
    let len = 64;
    let mut simd = Subject::Simd(SimdDataOperator::new_with_gf256(len, 0x11D));
    let mut vec = vec_gf256(len, 0x11D);
    differential_test_random_ops(&mut simd, &mut vec, len, 6, 200, 43, 0x11D);
}

#[test]
fn simd_vs_slab_gf256() {
    let len = 128;
    let mut simd = Subject::Simd(SimdDataOperator::new_with_gf256(len, 0x11D));
    let mut slab = Subject::Slab(SlabDataOperator::new_with_gf256(len, 0x11D));
    differential_test_random_ops(&mut simd, &mut slab, len, 6, 200, 44, 0x11D);
}

#[test]
fn simd_vs_vec_gf2() {
    let len = 16;
    let mut simd = Subject::Simd(SimdDataOperator::new(len));
    let mut vec = Subject::Vec(VecDataOperater::new(len));
    differential_test_random_ops(&mut simd, &mut vec, len, 5, 150, 100, GF2_FIELD_POLY);
}

#[test]
fn hand_crafted_operation_sequence() {
    let mut left = vec_gf256(4, 0x11D);
    let mut right = Subject::Slab(SlabDataOperator::new_with_gf256(4, 0x11D));
    let initial = vec![(0, vec![1, 2, 3, 4]), (1, vec![5, 6, 7, 8]), (2, vec![0, 0, 0, 0])];
    let ops = vec![
        Operation::MulAdd { src_id: 0, scalar: 3, target_id: 1 },
        Operation::BroadcastAdd { src_id: 2, target_ids: vec![1] },
        Operation::MoveTo { src_id: 1, target_id: 3 },
    ];
    assert_operators_equivalent(&mut left, &mut right, 4, &initial, &ops);
    assert_eq!(left.get(3), right.get(3));
}

#[test]
fn slab_matches_reference_on_edge_cases() {
    // Self-adds, missing sources, zero scalars and broadcasts onto the source itself, where
    // the reference semantics are easy to get wrong.
    let mut vec = vec_gf256(3, 0x11D);
    let mut slab = Subject::Slab(SlabDataOperator::new_with_gf256(3, 0x11D));
    let initial = vec![(0, vec![1, 2, 3]), (1, vec![9, 8, 7]), (2, vec![0x80, 0x40, 0xFF])];
    let ops = vec![
        Operation::AddOneToVector { src_id: 0, target_id: 0 },
        Operation::AddToVector { list_id: vec![7, 1, 1, 2], target_id: 0 },
        Operation::AddThreeToVector { s0: 2, s1: 9, s2: 1, target_id: 1 },
        Operation::MulAdd { src_id: 1, scalar: 0, target_id: 2 },
        Operation::MulAdd { src_id: 1, scalar: 0x53, target_id: 1 },
        Operation::BroadcastAdd { src_id: 1, target_ids: vec![0, 1, 2] },
        Operation::MultiplyScalar { scalar: 0xFE, id: 0 },
        Operation::MultiplyAlpha { id: 0 },
        Operation::CopyTo { src_id: 0, target_id: 5 },
        Operation::MoveTo { src_id: 5, target_id: 6 },
        Operation::EnsureZero { list_id: vec![2, 8] },
        Operation::Remove { id: 1 },
        Operation::InfoCodedVector { coded_id: 10, data_id: 0 },
    ];
    for (id, data) in &initial {
        vec.insert(data, *id);
        slab.insert(data, *id);
    }
    for op in &ops {
        vec.run(op);
        slab.run(op);
    }
    for id in [0usize, 2, 6, 8] {
        assert_eq!(vec.get(id), slab.get(id), "vector {id}");
    }
}
