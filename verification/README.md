# fountain_operators

Slab-backed vector operators for fountain-code operation logs, with GF(256) block kernels,
verified with Verus.

An operator stores byte vectors by data ID and runs the operations that a fountain-code
encoder or decoder records (zeroing, XOR-adding, scaling by a GF(256) scalar or by the
primitive element, multiply-adding, moving, copying and removing vectors). Every operation
is proved to have the effect that `operation::apply_op` gives it over a map from data ID to
bytes. That `apply_op` follows the engine's reference vector operator is shown by tests
(differential runs against that operator in `tests/differential.rs`), not by a proof.

## Layout

- `src/gf256.rs` — the product of GF(2^8) as a specification (shift-and-add with reduction),
  its algebra (distributivity, commutativity), and `Gf256Field`, which pairs the engine's
  GF(256) tables with the polynomial they were built for.
- `src/gf_kernels/` — the block kernels (`xor`, multiply-add, scale, multiply by alpha):
  a portable one over the field tables and two nibble-table ones laid out for 32-byte and
  16-byte registers, all proved against the same byte-wise specification.
- `src/slab_storage.rs` — one contiguous buffer split into fixed-length slots, with the
  `data_id -> slot` map, and its well-formedness invariant.
- `src/operation.rs` — the operations and their meaning (`apply_op`, `apply_ops`), and when
  an operation can run (`op_valid`).
- `src/slab_data_operator.rs`, `src/simd_data_operator.rs` — the operators.
- `src/replay.rs` — replaying an operation log on any operator that implements
  `VectorOperator`.
- `src/trace_format.rs` — captured traces and their JSON-shaped operations.
- `src/operator_testing.rs`, `src/scheme_operator_testing.rs` — random operation streams
  that are valid by construction, snapshots, test messages, coded-ID ranges and mismatch
  counting.
- `src/laws.rs` — properties that relate several operations.
- `app/` — the adapters to the engine's `DataOperator` trait, JSON files, benchmark records
  and the differential and encode/decode harnesses, which depend on the engine and on serde.
- `tests/` — tests of the library, including differential runs against the engine's
  reference vector operator.
