use fountain_operators::SlabStorage;

#[test]
fn insert_and_get_roundtrip() {
    let mut slab = SlabStorage::new(4);
    slab.insert_by_id(0, &[1, 2, 3, 4]);
    assert_eq!(slab.get_by_id(0), &[1, 2, 3, 4]);
}

#[test]
fn remove_unmaps_only() {
    let mut slab = SlabStorage::new(2);
    slab.insert_by_id(0, &[1, 2]);
    slab.remove_id(0);
    assert!(!slab.contains_id(0));
    assert_eq!(slab.num_slots(), 1);
}

#[test]
fn get_pair_mut_xor() {
    let mut slab = SlabStorage::new(3);
    slab.insert_by_id(0, &[1, 2, 3]);
    slab.ensure_id_exists(1);
    slab.slot_slice_mut(1).copy_from_slice(&[4, 5, 6]);
    slab.xor_slots(1, 0);
    assert_eq!(slab.slot_slice(1), &[5, 7, 5]);
}

#[test]
fn new_ids_get_fresh_slots_at_the_end() {
    let mut slab = SlabStorage::new(2);
    slab.insert_by_id(7, &[1, 1]);
    slab.insert_by_id(3, &[2, 2]);
    assert_eq!(slab.slot_for_id(7), 0);
    assert_eq!(slab.slot_for_id(3), 1);
    slab.remove_id(7);
    slab.insert_by_id(9, &[3, 3]);
    assert_eq!(slab.slot_for_id(9), 2);
    assert_eq!(slab.num_slots(), 3);
    assert_eq!(slab.slot_for_id_opt(7), None);
    assert_eq!(slab.slot_for_id_opt(3), Some(1));
    // Bytes of an unmapped slot stay in the buffer.
    assert_eq!(slab.slot_slice(0), &[1, 1]);
}

#[test]
fn insert_overwrites_existing_slot() {
    let mut slab = SlabStorage::new(3);
    slab.insert_by_id(5, &[1, 2, 3]);
    slab.insert_by_id(5, &[9, 8, 7]);
    assert_eq!(slab.num_slots(), 1);
    assert_eq!(slab.get_by_id(5), &[9, 8, 7]);
}

#[test]
fn ensure_zero_zeroes_or_allocates() {
    let mut slab = SlabStorage::new(3);
    slab.insert_by_id(0, &[1, 2, 3]);
    slab.ensure_zero_by_id(0);
    assert_eq!(slab.get_by_id(0), &[0, 0, 0]);
    slab.ensure_zero_by_id(4);
    assert_eq!(slab.get_by_id(4), &[0, 0, 0]);
    assert_eq!(slab.num_slots(), 2);
    assert_eq!(slab.vector_len(), 3);
}

#[test]
fn ensure_id_exists_keeps_existing_slot() {
    let mut slab = SlabStorage::new(2);
    slab.insert_by_id(1, &[5, 6]);
    assert_eq!(slab.ensure_id_exists(1), 0);
    assert_eq!(slab.get_by_id(1), &[5, 6]);
    assert_eq!(slab.ensure_id_exists(2), 1);
    assert_eq!(slab.get_by_id(2), &[0, 0]);
}

#[test]
fn move_remaps_without_copy() {
    let mut slab = SlabStorage::new(2);
    slab.insert_by_id(0, &[1, 2]);
    slab.move_id(0, 5);
    assert!(!slab.contains_id(0));
    assert_eq!(slab.get_by_id(5), &[1, 2]);
    assert_eq!(slab.slot_for_id(5), 0);
    assert_eq!(slab.num_slots(), 1);
    slab.move_id(5, 5);
    assert_eq!(slab.get_by_id(5), &[1, 2]);
}

#[test]
fn copy_keeps_source_and_allocates_target() {
    let mut slab = SlabStorage::new(2);
    slab.insert_by_id(0, &[1, 2]);
    slab.copy_id(0, 1);
    assert_eq!(slab.get_by_id(0), &[1, 2]);
    assert_eq!(slab.get_by_id(1), &[1, 2]);
    assert_eq!(slab.num_slots(), 2);
    slab.insert_by_id(0, &[3, 4]);
    slab.copy_id(0, 1);
    assert_eq!(slab.get_by_id(1), &[3, 4]);
    assert_eq!(slab.num_slots(), 2);
}

#[test]
fn xor_two_and_three_slots() {
    let mut slab = SlabStorage::new(2);
    slab.insert_by_id(0, &[1, 2]);
    slab.insert_by_id(1, &[4, 8]);
    slab.insert_by_id(2, &[16, 32]);
    slab.insert_by_id(3, &[64, 128]);
    slab.xor_two_slots(0, 1, 2);
    assert_eq!(slab.slot_slice(0), &[1 ^ 4 ^ 16, 2 ^ 8 ^ 32]);
    slab.xor_three_slots(3, 0, 1, 2);
    assert_eq!(slab.slot_slice(3), &[64 ^ (1 ^ 4 ^ 16) ^ 4 ^ 16, 128 ^ (2 ^ 8 ^ 32) ^ 8 ^ 32]);
}

#[test]
fn xor_twice_restores() {
    let mut slab = SlabStorage::new(3);
    slab.insert_by_id(0, &[7, 7, 7]);
    slab.insert_by_id(1, &[1, 2, 3]);
    slab.xor_slots(0, 1);
    slab.xor_slots(0, 1);
    assert_eq!(slab.slot_slice(0), &[7, 7, 7]);
}

#[test]
fn get_pair_mut_gives_disjoint_slots() {
    let mut slab = SlabStorage::new(2);
    slab.insert_by_id(0, &[1, 2]);
    slab.insert_by_id(1, &[3, 4]);
    {
        let (dst, src) = slab.get_pair_mut(0, 1);
        assert_eq!(src, &[3, 4]);
        dst[0] = src[1];
    }
    assert_eq!(slab.slot_slice(0), &[4, 2]);
    {
        let (dst, src) = slab.get_pair_mut(1, 0);
        assert_eq!(src, &[4, 2]);
        dst[1] = 9;
    }
    assert_eq!(slab.slot_slice(1), &[3, 9]);
}

#[test]
fn zero_length_vectors() {
    let mut slab = SlabStorage::new(0);
    slab.insert_by_id(1, &[]);
    slab.insert_by_id(2, &[]);
    assert_eq!(slab.num_slots(), 2);
    assert_eq!(slab.get_by_id(2), &[] as &[u8]);
}

#[test]
fn xor_two_slots_with_overlapping_slots() {
    let fresh = || {
        let mut slab = SlabStorage::new(2);
        slab.insert_by_id(0, &[1, 2]);
        slab.insert_by_id(1, &[4, 8]);
        slab.insert_by_id(2, &[16, 32]);
        slab
    };
    // A source equal to the destination is skipped.
    let mut slab = fresh();
    slab.xor_two_slots(0, 0, 1);
    assert_eq!(slab.slot_slice(0), &[1 ^ 4, 2 ^ 8]);
    let mut slab = fresh();
    slab.xor_two_slots(0, 2, 0);
    assert_eq!(slab.slot_slice(0), &[1 ^ 16, 2 ^ 32]);
    // Equal sources are XORed once.
    let mut slab = fresh();
    slab.xor_two_slots(0, 1, 1);
    assert_eq!(slab.slot_slice(0), &[1 ^ 4, 2 ^ 8]);
    // All three equal: nothing changes.
    let mut slab = fresh();
    slab.xor_two_slots(1, 1, 1);
    assert_eq!(slab.slot_slice(1), &[4, 8]);
    assert_eq!(slab.slot_slice(0), &[1, 2]);
    assert_eq!(slab.slot_slice(2), &[16, 32]);
}

#[test]
fn xor_three_slots_with_overlapping_slots() {
    let fresh = || {
        let mut slab = SlabStorage::new(2);
        slab.insert_by_id(0, &[1, 2]);
        slab.insert_by_id(1, &[4, 8]);
        slab.insert_by_id(2, &[16, 32]);
        slab.insert_by_id(3, &[64, 128]);
        slab
    };
    // Equal sources cancel: (d, a, a, c) gives d ^ c.
    let mut slab = fresh();
    slab.xor_three_slots(0, 1, 1, 2);
    assert_eq!(slab.slot_slice(0), &[1 ^ 16, 2 ^ 32]);
    // A source equal to the destination is skipped.
    let mut slab = fresh();
    slab.xor_three_slots(0, 1, 0, 3);
    assert_eq!(slab.slot_slice(0), &[1 ^ 4 ^ 64, 2 ^ 8 ^ 128]);
    // Every source equal to the destination: nothing changes.
    let mut slab = fresh();
    slab.xor_three_slots(2, 2, 2, 2);
    assert_eq!(slab.slot_slice(2), &[16, 32]);
    // Three equal sources other than the destination are XORed three times.
    let mut slab = fresh();
    slab.xor_three_slots(3, 1, 1, 1);
    assert_eq!(slab.slot_slice(3), &[64 ^ 4, 128 ^ 8]);
    assert_eq!(slab.slot_slice(1), &[4, 8]);
}

#[test]
fn mutating_calls_keep_length_and_never_drop_slots() {
    let mut slab = SlabStorage::new(3);
    let mut counts = vec![slab.num_slots()];
    slab.insert_by_id(4, &[1, 2, 3]);
    counts.push(slab.num_slots());
    slab.ensure_zero_by_id(5);
    counts.push(slab.num_slots());
    slab.copy_id(4, 6);
    counts.push(slab.num_slots());
    slab.move_id(6, 7);
    counts.push(slab.num_slots());
    slab.remove_id(5);
    counts.push(slab.num_slots());
    slab.xor_three_slots(0, 1, 1, 2);
    counts.push(slab.num_slots());
    let _ = slab.ensure_id_exists(4);
    counts.push(slab.num_slots());
    assert_eq!(counts, vec![0, 1, 2, 3, 3, 3, 3, 3]);
    assert_eq!(slab.vector_len(), 3);
}
