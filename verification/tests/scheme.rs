use fountain_operators::{
    count_message_mismatches, fountain_coded_ids, lt_coded_ids, make_test_messages, CodeParams,
    Operation, RoundtripResult,
};

#[test]
fn test_messages_formula() {
    let m = make_test_messages(3, 4);
    assert_eq!(m.len(), 3);
    assert_eq!(m[0], vec![0, 13, 26, 39]);
    assert_eq!(m[2], vec![14, 27, 40, 53]);
    let big = make_test_messages(40, 30);
    assert_eq!(big[39][29], ((39 * 7 + 29 * 13) % 256) as u8);
}

#[test]
fn coded_id_ranges() {
    assert_eq!(lt_coded_ids(3), vec![3, 4, 5, 6, 7, 8]);
    assert_eq!(lt_coded_ids(0), Vec::<usize>::new());
    let params = CodeParams { k: 12, a: 12, b: 0, l: 5, h: 3, i: 0 };
    assert_eq!(params.num_total(), 20);
    assert_eq!(fountain_coded_ids(&params, 2, 1), vec![21, 22, 23, 24, 25, 26]);
}

#[test]
fn mismatch_counting() {
    let expected = vec![vec![1u8, 2], vec![3, 4], vec![5, 6]];
    let actual = vec![vec![1u8, 2], vec![3, 0], vec![5, 6]];
    assert_eq!(count_message_mismatches(&actual, &expected, true), 1);
    assert_eq!(count_message_mismatches(&[], &expected, false), 3);
    assert_eq!(count_message_mismatches(&expected, &expected, true), 0);
}

#[test]
fn roundtrip_result_success_and_log() {
    let r = RoundtripResult {
        num_mismatches: 0,
        decoded: true,
        precoding_ops: vec![Operation::Remove { id: 1 }],
        encoding_ops: vec![],
        decoding_ops: vec![Operation::MultiplyAlpha { id: 2 }],
    };
    assert!(r.success());
    assert_eq!(
        r.all_operations(),
        vec![Operation::Remove { id: 1 }, Operation::MultiplyAlpha { id: 2 }]
    );
    let failed = RoundtripResult { num_mismatches: 1, ..r };
    assert!(!failed.success());
}
