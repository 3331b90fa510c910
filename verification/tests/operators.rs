use fountain_operators::operator_testing::random_op_from_draws;
use fountain_operators::{
    generate_random_ops, replay_operations, Gf256Field, KernelKind, Operation, OperatorSnapshot,
    SimdDataOperator, SlabDataOperator, VectorOperator, GF2_FIELD_POLY,
};
use rand::rngs::StdRng;
use rand::SeedableRng;
use std::collections::HashSet;

fn gf_mul(a: u8, b: u8) -> u8 {
    let gf = fountain_engine::algebra::finite_field::GF256::new_with_primitive_polynomial(0x11D);
    gf.mul_lookup(a, b)
}

#[test]
fn replay_matches_direct_execute() {
    let len = 8;
    let mut direct = SlabDataOperator::new_with_gf256(len, 0x11D);
    let mut replayed = SlabDataOperator::new_with_gf256(len, 0x11D);

    direct.insert_vector(&[1, 2, 3, 4, 5, 6, 7, 8], 0);
    replayed.insert_vector(&[1, 2, 3, 4, 5, 6, 7, 8], 0);

    let ops = vec![
        Operation::EnsureZero { list_id: vec![1, 2] },
        Operation::MulAdd { src_id: 0, scalar: 2, target_id: 1 },
        Operation::AddToVector { list_id: vec![0], target_id: 2 },
    ];

    for op in &ops {
        direct.execute(op);
    }
    replay_operations(&mut replayed, &ops);

    assert_eq!(direct.get_vector(1), replayed.get_vector(1));
    assert_eq!(direct.get_vector(2), replayed.get_vector(2));
    assert_eq!(replayed.get_vector(1), &[2, 4, 6, 8, 10, 12, 14, 16]);
    assert_eq!(replayed.get_vector(2), &[1, 2, 3, 4, 5, 6, 7, 8]);
}

#[test]
fn multiply_scalar_and_alpha() {
    let mut op = SlabDataOperator::new_with_gf256(3, 0x11D);
    op.insert_vector(&[1, 0x80, 7], 0);
    op.execute(&Operation::MultiplyAlpha { id: 0 });
    assert_eq!(op.get_vector(0), &[2, 0x1D, 14]);
    op.execute(&Operation::MultiplyScalar { scalar: 1, id: 0 });
    assert_eq!(op.get_vector(0), &[2, 0x1D, 14]);
    op.execute(&Operation::MultiplyScalar { scalar: 7, id: 0 });
    assert_eq!(op.get_vector(0), &[gf_mul(2, 7), gf_mul(0x1D, 7), gf_mul(14, 7)]);
    op.execute(&Operation::MultiplyScalar { scalar: 0, id: 0 });
    assert_eq!(op.get_vector(0), &[0, 0, 0]);
}

#[test]
fn alpha_equals_scalar_two() {
    let mut a = SlabDataOperator::new_with_gf256(4, 0x12B);
    let mut b = SlabDataOperator::new_with_gf256(4, 0x12B);
    a.insert_vector(&[0x81, 0xFF, 3, 0], 0);
    b.insert_vector(&[0x81, 0xFF, 3, 0], 0);
    a.execute(&Operation::MultiplyAlpha { id: 0 });
    b.execute(&Operation::MultiplyScalar { scalar: 2, id: 0 });
    assert_eq!(a.get_vector(0), b.get_vector(0));
}

#[test]
fn add_operations_follow_reference_semantics() {
    let mut op = SlabDataOperator::new(2);
    op.insert_vector(&[1, 2], 0);
    op.insert_vector(&[4, 8], 1);
    op.insert_vector(&[16, 32], 2);
    op.insert_vector(&[64, 128], 3);
    op.execute(&Operation::AddOneToVector { src_id: 1, target_id: 0 });
    assert_eq!(op.get_vector(0), &[5, 10]);
    op.execute(&Operation::AddTwoToVector { s0: 1, s1: 2, target_id: 0 });
    assert_eq!(op.get_vector(0), &[5 ^ 4 ^ 16, 10 ^ 8 ^ 32]);
    op.execute(&Operation::AddThreeToVector { s0: 0, s1: 1, s2: 2, target_id: 3 });
    assert_eq!(op.get_vector(3), &[64 ^ (5 ^ 4 ^ 16) ^ 4 ^ 16, 128 ^ (10 ^ 8 ^ 32) ^ 8 ^ 32]);
    // Missing sources are skipped.
    op.execute(&Operation::AddToVector { list_id: vec![1, 99, 2], target_id: 0 });
    assert_eq!(op.get_vector(0), &[5, 10]);
    // A duplicated source cancels out.
    op.execute(&Operation::AddTwoToVector { s0: 1, s1: 1, target_id: 0 });
    assert_eq!(op.get_vector(0), &[5, 10]);
    // Adding a vector to itself zeroes it.
    op.execute(&Operation::AddOneToVector { src_id: 0, target_id: 0 });
    assert_eq!(op.get_vector(0), &[0, 0]);
}

#[test]
fn add_twice_restores_target() {
    let mut op = SlabDataOperator::new(3);
    op.insert_vector(&[9, 9, 9], 0);
    op.insert_vector(&[1, 2, 3], 1);
    op.execute(&Operation::AddOneToVector { src_id: 1, target_id: 0 });
    op.execute(&Operation::AddOneToVector { src_id: 1, target_id: 0 });
    assert_eq!(op.get_vector(0), &[9, 9, 9]);
}

#[test]
fn broadcast_and_mul_add() {
    let mut op = SlabDataOperator::new_with_gf256(2, 0x11D);
    op.insert_vector(&[3, 5], 0);
    op.insert_vector(&[1, 1], 1);
    op.insert_vector(&[2, 2], 2);
    op.execute(&Operation::BroadcastAdd { src_id: 0, target_ids: vec![1, 2] });
    assert_eq!(op.get_vector(1), &[2, 4]);
    assert_eq!(op.get_vector(2), &[1, 7]);
    op.execute(&Operation::MulAdd { src_id: 0, scalar: 3, target_id: 1 });
    assert_eq!(op.get_vector(1), &[2 ^ gf_mul(3, 3), 4 ^ gf_mul(3, 5)]);
    op.execute(&Operation::MulAdd { src_id: 1, scalar: 2, target_id: 1 });
    let t = [2 ^ gf_mul(3, 3), 4 ^ gf_mul(3, 5)];
    assert_eq!(op.get_vector(1), &[t[0] ^ gf_mul(2, t[0]), t[1] ^ gf_mul(2, t[1])]);
    op.execute(&Operation::MulAdd { src_id: 0, scalar: 1, target_id: 2 });
    assert_eq!(op.get_vector(2), &[1 ^ 3, 7 ^ 5]);
    // A zero scalar zeroes the target.
    op.execute(&Operation::MulAdd { src_id: 0, scalar: 0, target_id: 2 });
    assert_eq!(op.get_vector(2), &[0, 0]);
    // Broadcasting a vector onto itself zeroes it before the later targets.
    op.execute(&Operation::BroadcastAdd { src_id: 0, target_ids: vec![0, 1] });
    assert_eq!(op.get_vector(0), &[0, 0]);
    assert_eq!(op.get_vector(1), &[t[0] ^ gf_mul(2, t[0]), t[1] ^ gf_mul(2, t[1])]);
}

#[test]
fn move_copy_remove() {
    let mut op = SlabDataOperator::new(2);
    op.insert_vector(&[1, 2], 0);
    op.execute(&Operation::CopyTo { src_id: 0, target_id: 1 });
    op.execute(&Operation::MoveTo { src_id: 0, target_id: 2 });
    assert_eq!(op.get_vector(1), &[1, 2]);
    assert_eq!(op.get_vector(2), &[1, 2]);
    assert!(!op.storage().contains_id(0));
    op.execute(&Operation::Remove { id: 1 });
    assert!(!op.storage().contains_id(1));
    assert_eq!(op.storage().num_slots(), 2);
    op.execute(&Operation::InfoCodedVector { coded_id: 5, data_id: 2 });
    assert_eq!(op.get_vector(2), &[1, 2]);
}

#[test]
fn config_finite_field_sets_and_clears() {
    let mut op = SlabDataOperator::new(4);
    assert!(op.gf256().is_none());
    op.config_finite_field(0x11D);
    assert_eq!(op.gf256().map(|f| f.polynomial()), Some(0x11D));
    op.config_finite_field(0x11D);
    assert_eq!(op.gf256().map(|f| f.polynomial()), Some(0x11D));
    op.config_finite_field(GF2_FIELD_POLY);
    assert!(op.gf256().is_none());
    let gf = fountain_engine::algebra::finite_field::GF256::new_with_primitive_polynomial(0x12D);
    op.config_finite_field_from(Gf256Field::from_gf256(&gf));
    assert_eq!(op.gf256().map(|f| f.polynomial()), Some(0x12D));
    let mut simd = SimdDataOperator::new(4);
    simd.config_finite_field(0x14D);
    assert_eq!(simd.gf256().map(|f| f.polynomial()), Some(0x14D));
    simd.config_finite_field_from(Gf256Field::new(0x163));
    assert_eq!(simd.gf256().map(|f| f.polynomial()), Some(0x163));
    simd.config_finite_field_from(Gf256Field::new(0x163));
    assert_eq!(simd.gf256().map(|f| f.polynomial()), Some(0x163));
}

#[test]
fn simd_matches_slab_on_random_ops() {
    for (len, pp, seed) in [(64usize, 0x11Du16, 44u64), (16, GF2_FIELD_POLY, 100), (3, 0x11D, 7)] {
        let mut simd = if pp == GF2_FIELD_POLY {
            SimdDataOperator::new(len)
        } else {
            SimdDataOperator::new_with_gf256(len, pp)
        };
        let mut slab = if pp == GF2_FIELD_POLY {
            SlabDataOperator::new(len)
        } else {
            SlabDataOperator::new_with_gf256(len, pp)
        };
        let mut other = SlabDataOperator::with_kernel(
            len,
            if pp == GF2_FIELD_POLY { None } else { Some(Gf256Field::new(pp)) },
            KernelKind::Avx2,
        );
        let ids: Vec<usize> = (0..6).collect();
        for &id in &ids {
            let v: Vec<u8> = (0..len).map(|j| (id * 31 + j * 7) as u8).collect();
            simd.insert_vector(&v, id);
            slab.insert_vector(&v, id);
            other.insert_vector(&v, id);
        }
        let mut rng = StdRng::seed_from_u64(seed);
        let ops = generate_random_ops(&mut rng, &ids, 200, pp);
        assert_eq!(ops.len(), 200);
        let mut live: HashSet<usize> = ids.iter().copied().collect();
        for op in &ops {
            fountain_operators::operator_testing::apply_op_to_live_set(&mut live, op);
        }
        replay_operations(&mut simd, &ops);
        replay_operations(&mut slab, &ops);
        replay_operations(&mut other, &ops);
        let a = OperatorSnapshot::capture(&simd, &live);
        let b = OperatorSnapshot::capture(&slab, &live);
        let c = OperatorSnapshot::capture(&other, &live);
        assert_eq!(a, b);
        assert_eq!(b, c);
        for id in &live {
            assert_eq!(simd.get_vector(*id), VectorOperator::get_vector(&slab, *id));
        }
    }
}

#[test]
fn random_ops_only_touch_live_ids() {
    let mut rng = StdRng::seed_from_u64(42);
    let ids: Vec<usize> = (0..5).collect();
    let ops = generate_random_ops(&mut rng, &ids, 300, GF2_FIELD_POLY);
    let mut live: HashSet<usize> = ids.iter().copied().collect();
    for op in &ops {
        match op {
            Operation::MultiplyAlpha { .. } => panic!("no alpha without a field"),
            Operation::MultiplyScalar { scalar, .. } | Operation::MulAdd { scalar, .. } => {
                assert!(*scalar <= 1)
            }
            Operation::Remove { id } => assert!(live.contains(id)),
            Operation::MoveTo { src_id, target_id } => {
                assert!(live.contains(src_id));
                assert!(live.contains(target_id));
            }
            _ => {}
        }
        fountain_operators::operator_testing::apply_op_to_live_set(&mut live, op);
    }
}

#[test]
fn live_set_tracking() {
    let mut live: HashSet<usize> = [1usize, 2].into_iter().collect();
    fountain_operators::operator_testing::apply_op_to_live_set(
        &mut live,
        &Operation::MoveTo { src_id: 1, target_id: 5 },
    );
    let mut got: Vec<usize> = live.iter().copied().collect();
    got.sort();
    assert_eq!(got, vec![2, 5]);
    fountain_operators::operator_testing::apply_op_to_live_set(
        &mut live,
        &Operation::EnsureZero { list_id: vec![7, 8] },
    );
    fountain_operators::operator_testing::apply_op_to_live_set(&mut live, &Operation::Remove { id: 2 });
    let mut got: Vec<usize> = live.iter().copied().collect();
    got.sort();
    assert_eq!(got, vec![5, 7, 8]);
}

#[test]
fn can_execute_reports_what_execute_needs() {
    let mut op = SlabDataOperator::new(2);
    op.insert_vector(&[1, 2], 0);
    op.insert_vector(&[3, 4], 1);
    // Stored targets and sources.
    assert!(op.can_execute(&Operation::AddToVector { list_id: vec![1, 9], target_id: 0 }));
    assert!(op.can_execute(&Operation::MulAdd { src_id: 1, scalar: 1, target_id: 0 }));
    assert!(op.can_execute(&Operation::BroadcastAdd { src_id: 0, target_ids: vec![0, 1] }));
    assert!(op.can_execute(&Operation::EnsureZero { list_id: vec![5, 6] }));
    assert!(op.can_execute(&Operation::CopyTo { src_id: 0, target_id: 7 }));
    assert!(op.can_execute(&Operation::MoveTo { src_id: 4, target_id: 4 }));
    assert!(op.can_execute(&Operation::InfoCodedVector { coded_id: 3, data_id: 9 }));
    // Missing vectors.
    assert!(!op.can_execute(&Operation::AddOneToVector { src_id: 0, target_id: 9 }));
    assert!(!op.can_execute(&Operation::BroadcastAdd { src_id: 0, target_ids: vec![1, 9] }));
    assert!(!op.can_execute(&Operation::MulAdd { src_id: 9, scalar: 1, target_id: 0 }));
    assert!(!op.can_execute(&Operation::MoveTo { src_id: 9, target_id: 0 }));
    assert!(!op.can_execute(&Operation::CopyTo { src_id: 9, target_id: 0 }));
    assert!(!op.can_execute(&Operation::Remove { id: 9 }));
    // Scalars above one and alpha need a field.
    assert!(!op.can_execute(&Operation::MultiplyAlpha { id: 0 }));
    assert!(!op.can_execute(&Operation::MultiplyScalar { scalar: 2, id: 0 }));
    assert!(op.can_execute(&Operation::MultiplyScalar { scalar: 1, id: 0 }));
    assert!(!op.can_execute(&Operation::MulAdd { src_id: 1, scalar: 3, target_id: 0 }));
    op.config_finite_field(0x11D);
    assert!(op.can_execute(&Operation::MultiplyAlpha { id: 0 }));
    assert!(op.can_execute(&Operation::MulAdd { src_id: 1, scalar: 3, target_id: 0 }));

    let simd = SimdDataOperator::new(2);
    assert!(!simd.can_execute(&Operation::Remove { id: 0 }));
    assert!(simd.can_execute(&Operation::EnsureZero { list_id: vec![0] }));
}

#[test]
fn can_insert_checks_the_length() {
    let mut op = SlabDataOperator::new(3);
    assert!(op.can_insert(&[1, 2, 3], 0));
    assert!(!op.can_insert(&[1, 2], 0));
    assert!(!op.can_insert(&[1, 2, 3, 4], 0));
    op.insert_vector(&[1, 2, 3], 0);
    assert!(op.can_insert(&[4, 5, 6], 0));
    let simd = SimdDataOperator::new(1);
    assert!(simd.can_insert(&[7], 3));
    assert!(!simd.can_insert(&[], 3));
}

#[test]
fn replay_in_two_parts_matches_whole() {
    let ops = vec![
        Operation::EnsureZero { list_id: vec![2] },
        Operation::MulAdd { src_id: 0, scalar: 9, target_id: 2 },
        Operation::AddTwoToVector { s0: 0, s1: 1, target_id: 2 },
        Operation::CopyTo { src_id: 2, target_id: 3 },
        Operation::MultiplyAlpha { id: 3 },
        Operation::MoveTo { src_id: 1, target_id: 4 },
    ];
    let mut whole = SlabDataOperator::new_with_gf256(4, 0x11D);
    let mut parts = SlabDataOperator::new_with_gf256(4, 0x11D);
    for op in [&mut whole, &mut parts] {
        op.insert_vector(&[1, 2, 3, 4], 0);
        op.insert_vector(&[0x80, 0x81, 0xFE, 0xFF], 1);
    }
    replay_operations(&mut whole, &ops);
    replay_operations(&mut parts, &ops[..3]);
    replay_operations(&mut parts, &ops[3..]);
    for id in [0usize, 2, 3, 4] {
        assert_eq!(whole.get_vector(id), parts.get_vector(id));
    }
    assert!(!whole.storage().contains_id(1));
    assert!(!parts.storage().contains_id(1));
}

#[test]
fn random_logs_keep_vector_length() {
    for (len, pp, seed) in [(5usize, 0x11Du16, 3u64), (9, GF2_FIELD_POLY, 4)] {
        let mut op = if pp == GF2_FIELD_POLY {
            SlabDataOperator::new(len)
        } else {
            SlabDataOperator::new_with_gf256(len, pp)
        };
        let ids: Vec<usize> = (0..4).collect();
        for &id in &ids {
            op.insert_vector(&vec![id as u8; len], id);
        }
        let mut rng = StdRng::seed_from_u64(seed);
        let ops = generate_random_ops(&mut rng, &ids, 120, pp);
        let mut live: HashSet<usize> = ids.iter().copied().collect();
        for o in &ops {
            fountain_operators::operator_testing::apply_op_to_live_set(&mut live, o);
        }
        replay_operations(&mut op, &ops);
        for id in &live {
            assert_eq!(op.get_vector(*id).len(), len);
        }
    }
}

#[test]
fn random_ops_name_only_live_ids() {
    for (pp, seed) in [(0x11Du16, 5u64), (GF2_FIELD_POLY, 6)] {
        let mut rng = StdRng::seed_from_u64(seed);
        let ids: Vec<usize> = (10..14).collect();
        let ops = generate_random_ops(&mut rng, &ids, 300, pp);
        let mut live: HashSet<usize> = ids.iter().copied().collect();
        for op in &ops {
            match op {
                Operation::EnsureZero { list_id } => {
                    assert_eq!(list_id.len(), 1);
                    assert!(live.contains(&list_id[0]));
                }
                Operation::MultiplyAlpha { id } => assert!(pp != GF2_FIELD_POLY && live.contains(id)),
                Operation::MultiplyScalar { scalar, id } => {
                    assert!(pp != GF2_FIELD_POLY && live.contains(id));
                    assert!([0u8, 1, 2, 7, 0xFF].contains(scalar));
                }
                Operation::AddToVector { list_id, target_id } => {
                    assert_eq!(list_id.len(), 1);
                    assert!(live.contains(&list_id[0]) && live.contains(target_id));
                }
                Operation::BroadcastAdd { src_id, target_ids } => {
                    assert_eq!(target_ids.len(), 1);
                    assert!(live.contains(src_id) && live.contains(&target_ids[0]));
                }
                Operation::MulAdd { src_id, scalar, target_id } => {
                    assert!(live.contains(src_id) && live.contains(target_id));
                    if pp == GF2_FIELD_POLY {
                        assert!(*scalar <= 1);
                    } else {
                        assert!([0u8, 1, 2, 7, 0xFF].contains(scalar));
                    }
                }
                Operation::MoveTo { src_id, target_id } => {
                    assert_ne!(src_id, target_id);
                    assert!(live.len() > 1 && live.contains(src_id) && live.contains(target_id));
                }
                Operation::CopyTo { src_id, target_id } => {
                    assert!(live.contains(src_id) && live.contains(target_id));
                }
                Operation::Remove { id } => assert!(live.len() > 1 && live.contains(id)),
                Operation::InfoCodedVector { coded_id, data_id } => {
                    assert!(pp != GF2_FIELD_POLY && *coded_id < 1000 && live.contains(data_id));
                }
                other => panic!("unexpected operation {other:?}"),
            }
            fountain_operators::operator_testing::apply_op_to_live_set(&mut live, op);
        }
    }
}

#[test]
fn random_ops_without_live_ids_zero_the_ids() {
    let mut rng = StdRng::seed_from_u64(8);
    let ops = generate_random_ops(&mut rng, &[], 3, 0x11D);
    assert_eq!(ops.len(), 3);
    for op in &ops {
        assert_eq!(op, &Operation::EnsureZero { list_id: vec![] });
    }
}

#[test]
fn fixed_arity_adds_match_list_adds() {
    let cases: Vec<(Operation, Operation)> = vec![
        (
            Operation::AddOneToVector { src_id: 1, target_id: 0 },
            Operation::AddToVector { list_id: vec![1], target_id: 0 },
        ),
        (
            Operation::AddTwoToVector { s0: 1, s1: 2, target_id: 0 },
            Operation::AddToVector { list_id: vec![1, 2], target_id: 0 },
        ),
        (
            Operation::AddThreeToVector { s0: 1, s1: 0, s2: 9, target_id: 0 },
            Operation::AddToVector { list_id: vec![1, 0, 9], target_id: 0 },
        ),
    ];
    for (fixed, list) in &cases {
        let mut a = SlabDataOperator::new(2);
        let mut b = SlabDataOperator::new(2);
        for op in [&mut a, &mut b] {
            op.insert_vector(&[1, 2], 0);
            op.insert_vector(&[4, 8], 1);
            op.insert_vector(&[16, 32], 2);
        }
        a.execute(fixed);
        b.execute(list);
        for id in 0..3 {
            assert_eq!(a.get_vector(id), b.get_vector(id));
        }
    }
}

#[test]
fn draws_give_the_listed_operations() {
    // With a GF(256) field.
    assert_eq!(random_op_from_draws(true, 3, 4, 5, 0, 0), Operation::EnsureZero { list_id: vec![4] });
    assert_eq!(random_op_from_draws(true, 3, 4, 5, 1, 0), Operation::MultiplyAlpha { id: 4 });
    assert_eq!(
        random_op_from_draws(true, 3, 4, 5, 2, 3),
        Operation::MultiplyScalar { scalar: 7, id: 4 }
    );
    assert_eq!(
        random_op_from_draws(true, 3, 4, 5, 3, 0),
        Operation::AddToVector { list_id: vec![4], target_id: 5 }
    );
    assert_eq!(
        random_op_from_draws(true, 3, 4, 5, 4, 0),
        Operation::BroadcastAdd { src_id: 4, target_ids: vec![5] }
    );
    assert_eq!(
        random_op_from_draws(true, 3, 4, 5, 5, 5),
        Operation::MulAdd { src_id: 4, scalar: 0xFF, target_id: 5 }
    );
    assert_eq!(random_op_from_draws(true, 3, 4, 5, 6, 0), Operation::MoveTo { src_id: 4, target_id: 5 });
    // A move between equal IDs, or with one live ID, falls back to a coded-vector marker.
    assert_eq!(
        random_op_from_draws(true, 3, 4, 4, 6, 17),
        Operation::InfoCodedVector { coded_id: 17, data_id: 4 }
    );
    assert_eq!(random_op_from_draws(true, 3, 4, 5, 7, 0), Operation::CopyTo { src_id: 4, target_id: 5 });
    assert_eq!(random_op_from_draws(true, 3, 4, 5, 8, 0), Operation::Remove { id: 4 });
    assert_eq!(
        random_op_from_draws(true, 1, 4, 4, 8, 999),
        Operation::InfoCodedVector { coded_id: 999, data_id: 4 }
    );
    // Without a field.
    assert_eq!(random_op_from_draws(false, 2, 1, 2, 0, 0), Operation::EnsureZero { list_id: vec![1] });
    assert_eq!(
        random_op_from_draws(false, 2, 1, 2, 3, 1),
        Operation::MulAdd { src_id: 1, scalar: 1, target_id: 2 }
    );
    assert_eq!(random_op_from_draws(false, 1, 1, 2, 4, 0), Operation::EnsureZero { list_id: vec![1] });
    assert_eq!(random_op_from_draws(false, 2, 1, 2, 6, 0), Operation::Remove { id: 1 });
}
