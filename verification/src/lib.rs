//! GF(256) block kernels and a slab-backed vector store for fountain-code operation logs.

pub mod gf256;
pub mod gf_kernels;
pub mod operation;
pub mod slab_storage;
pub mod slab_data_operator;
pub mod replay;
pub mod simd_data_operator;
pub mod trace_format;
pub mod scheme_operator_testing;
pub mod operator_testing;
pub mod laws;

pub use gf256::Gf256Field;
pub use gf_kernels::{
    available_kernel_kinds, default_kernel, select_kernel, selected_kernel_kind, Avx2Kernel,
    GfBlockKernel, KernelKind, NeonKernel, PortableKernel,
};
pub use operation::Operation;
pub use operator_testing::{generate_random_ops, OperatorSnapshot};
pub use replay::{replay_operations, VectorOperator};
pub use scheme_operator_testing::{
    count_message_mismatches, fountain_coded_ids, lt_coded_ids, make_test_messages, CodeParams,
    RoundtripResult,
};
pub use simd_data_operator::SimdDataOperator;
pub use slab_data_operator::{SlabDataOperator, GF2_FIELD_POLY};
pub use slab_storage::SlabStorage;
pub use trace_format::{CapturedTrace, OperationJson};
