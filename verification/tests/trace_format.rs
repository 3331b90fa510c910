use fountain_operators::{CapturedTrace, Operation, OperationJson};

#[test]
fn operation_json_roundtrip() {
    let ops = vec![
        Operation::EnsureZero { list_id: vec![1, 2] },
        Operation::MulAdd { src_id: 0, scalar: 3, target_id: 1 },
    ];
    let json: Vec<OperationJson> = ops.iter().map(OperationJson::from).collect();
    let back: Vec<Operation> = json.iter().cloned().map(Operation::from).collect();
    let json2: Vec<OperationJson> = back.iter().map(OperationJson::from).collect();
    assert_eq!(json, json2);
}

#[test]
fn fixed_arity_adds_become_lists() {
    assert_eq!(
        OperationJson::from(&Operation::AddOneToVector { src_id: 4, target_id: 9 }),
        OperationJson::AddToVector { list_id: vec![4], target_id: 9 }
    );
    assert_eq!(
        OperationJson::from(&Operation::AddThreeToVector { s0: 1, s1: 2, s2: 3, target_id: 0 }),
        OperationJson::AddToVector { list_id: vec![1, 2, 3], target_id: 0 }
    );
    assert_eq!(
        Operation::from(OperationJson::AddToVector { list_id: vec![1, 2], target_id: 0 }),
        Operation::AddToVector { list_id: vec![1, 2], target_id: 0 }
    );
}

fn sample_trace() -> CapturedTrace {
    CapturedTrace::from_roundtrip(
        "hdpc_gf256".to_string(),
        "hdpc".to_string(),
        14,
        1,
        Some(0x11D),
        &[Operation::EnsureZero { list_id: vec![14] }],
        &[Operation::AddTwoToVector { s0: 0, s1: 1, target_id: 14 }],
        &[Operation::Remove { id: 14 }],
    )
}

#[test]
fn trace_operation_lists() {
    let trace = sample_trace();
    assert_eq!(trace.k, 14);
    assert_eq!(trace.field_pp, Some(0x11D));
    assert_eq!(
        trace.all_operations(),
        vec![
            Operation::EnsureZero { list_id: vec![14] },
            Operation::AddToVector { list_id: vec![0, 1], target_id: 14 },
            Operation::Remove { id: 14 },
        ]
    );
    assert_eq!(trace.encoder_operations().len(), 2);
    assert_eq!(trace.precoding_operations(), vec![Operation::EnsureZero { list_id: vec![14] }]);
    assert_eq!(trace.decoding_operations(), vec![Operation::Remove { id: 14 }]);
    assert_eq!(
        trace.encoding_operations(),
        vec![Operation::AddToVector { list_id: vec![0, 1], target_id: 14 }]
    );
}

#[test]
fn suggested_filename_format() {
    let trace = sample_trace();
    assert_eq!(trace.suggested_filename(), "hdpc_gf256_k14_t1.json");
    let mut t2 = sample_trace();
    t2.name = "random_lt".to_string();
    t2.k = 15;
    t2.symbol_size = 64;
    assert_eq!(t2.suggested_filename(), "random_lt_k15_t64.json");
    t2.k = 0;
    t2.symbol_size = 1500;
    assert_eq!(t2.suggested_filename(), "random_lt_k0_t1500.json");
}
