//! Captured encode/decode operation logs and their JSON-shaped operations.

use crate::operation::{apply_op, copy_ids, op_growth, op_valid, Operation};
use vstd::prelude::*;
use vstd::string::StringExecFns;

verus! {

/// JSON-friendly mirror of [`Operation`]: the add operations of fixed arity all become
/// [`OperationJson::AddToVector`].
#[derive(Debug, PartialEq, Eq)]
pub enum OperationJson {
    EnsureZero { list_id: Vec<usize> },
    MultiplyAlpha { id: usize },
    MultiplyScalar { scalar: u8, id: usize },
    AddToVector { list_id: Vec<usize>, target_id: usize },
    BroadcastAdd { src_id: usize, target_ids: Vec<usize> },
    MulAdd { src_id: usize, scalar: u8, target_id: usize },
    MoveTo { src_id: usize, target_id: usize },
    CopyTo { src_id: usize, target_id: usize },
    Remove { id: usize },
    InfoCodedVector { coded_id: usize, data_id: usize },
}

/// `j` is the JSON form of `op`.
pub open spec fn json_of(op: Operation, j: OperationJson) -> bool {
    match op {
        Operation::EnsureZero { list_id } => j matches OperationJson::EnsureZero { list_id: l }
            && l@ == list_id@,
        Operation::MultiplyAlpha { id } => j == OperationJson::MultiplyAlpha { id },
        Operation::MultiplyScalar { scalar, id } => j == OperationJson::MultiplyScalar {
            scalar,
            id,
        },
        Operation::AddOneToVector { src_id, target_id } => j matches OperationJson::AddToVector {
            list_id: l,
            target_id: t,
        } && l@ == seq![src_id] && t == target_id,
        Operation::AddTwoToVector { s0, s1, target_id } => j matches OperationJson::AddToVector {
            list_id: l,
            target_id: t,
        } && l@ == seq![s0, s1] && t == target_id,
        Operation::AddThreeToVector { s0, s1, s2, target_id } => j matches OperationJson::AddToVector {
            list_id: l,
            target_id: t,
        } && l@ == seq![s0, s1, s2] && t == target_id,
        Operation::AddToVector { list_id, target_id } => j matches OperationJson::AddToVector {
            list_id: l,
            target_id: t,
        } && l@ == list_id@ && t == target_id,
        Operation::BroadcastAdd { src_id, target_ids } => j matches OperationJson::BroadcastAdd {
            src_id: s,
            target_ids: l,
        } && l@ == target_ids@ && s == src_id,
        Operation::MulAdd { src_id, scalar, target_id } => j == OperationJson::MulAdd {
            src_id,
            scalar,
            target_id,
        },
        Operation::MoveTo { src_id, target_id } => j == OperationJson::MoveTo { src_id, target_id },
        Operation::CopyTo { src_id, target_id } => j == OperationJson::CopyTo { src_id, target_id },
        Operation::Remove { id } => j == OperationJson::Remove { id },
        Operation::InfoCodedVector { coded_id, data_id } => j == OperationJson::InfoCodedVector {
            coded_id,
            data_id,
        },
    }
}

/// `op` is the operation that the JSON form `j` describes.
pub open spec fn op_of(j: OperationJson, op: Operation) -> bool {
    match j {
        OperationJson::EnsureZero { list_id } => op matches Operation::EnsureZero { list_id: l }
            && l@ == list_id@,
        OperationJson::MultiplyAlpha { id } => op == Operation::MultiplyAlpha { id },
        OperationJson::MultiplyScalar { scalar, id } => op == Operation::MultiplyScalar {
            scalar,
            id,
        },
        OperationJson::AddToVector { list_id, target_id } => op matches Operation::AddToVector {
            list_id: l,
            target_id: t,
        } && l@ == list_id@ && t == target_id,
        OperationJson::BroadcastAdd { src_id, target_ids } => op matches Operation::BroadcastAdd {
            src_id: s,
            target_ids: l,
        } && l@ == target_ids@ && s == src_id,
        OperationJson::MulAdd { src_id, scalar, target_id } => op == Operation::MulAdd {
            src_id,
            scalar,
            target_id,
        },
        OperationJson::MoveTo { src_id, target_id } => op == Operation::MoveTo { src_id, target_id },
        OperationJson::CopyTo { src_id, target_id } => op == Operation::CopyTo { src_id, target_id },
        OperationJson::Remove { id } => op == Operation::Remove { id },
        OperationJson::InfoCodedVector { coded_id, data_id } => op == Operation::InfoCodedVector {
            coded_id,
            data_id,
        },
    }
}

/// Two JSON operations with the same variant and the same field values.
pub open spec fn same_json(a: OperationJson, b: OperationJson) -> bool {
    match a {
        OperationJson::EnsureZero { list_id } => b matches OperationJson::EnsureZero { list_id: l }
            && l@ == list_id@,
        OperationJson::AddToVector { list_id, target_id } => b matches OperationJson::AddToVector {
            list_id: l,
            target_id: t,
        } && l@ == list_id@ && t == target_id,
        OperationJson::BroadcastAdd { src_id, target_ids } => b matches OperationJson::BroadcastAdd {
            src_id: s,
            target_ids: l,
        } && l@ == target_ids@ && s == src_id,
        _ => a == b,
    }
}

/// `js` and `ops` correspond element by element.
pub open spec fn ops_of(js: Seq<OperationJson>, ops: Seq<Operation>) -> bool {
    &&& js.len() == ops.len()
    &&& forall|i: int| 0 <= i < js.len() ==> op_of(#[trigger] js[i], ops[i])
}

/// `js` holds the JSON forms of `ops`, element by element.
pub open spec fn jsons_of(ops: Seq<Operation>, js: Seq<OperationJson>) -> bool {
    &&& js.len() == ops.len()
    &&& forall|i: int| 0 <= i < js.len() ==> json_of(#[trigger] ops[i], js[i])
}

impl Clone for OperationJson {
    fn clone(&self) -> (r: Self)
        ensures
            same_json(*self, r),
    {
        match self {
            OperationJson::EnsureZero { list_id } => OperationJson::EnsureZero {
                list_id: copy_ids(list_id),
            },
            OperationJson::MultiplyAlpha { id } => OperationJson::MultiplyAlpha { id: *id },
            OperationJson::MultiplyScalar { scalar, id } => OperationJson::MultiplyScalar {
                scalar: *scalar,
                id: *id,
            },
            OperationJson::AddToVector { list_id, target_id } => OperationJson::AddToVector {
                list_id: copy_ids(list_id),
                target_id: *target_id,
            },
            OperationJson::BroadcastAdd { src_id, target_ids } => OperationJson::BroadcastAdd {
                src_id: *src_id,
                target_ids: copy_ids(target_ids),
            },
            OperationJson::MulAdd { src_id, scalar, target_id } => OperationJson::MulAdd {
                src_id: *src_id,
                scalar: *scalar,
                target_id: *target_id,
            },
            OperationJson::MoveTo { src_id, target_id } => OperationJson::MoveTo {
                src_id: *src_id,
                target_id: *target_id,
            },
            OperationJson::CopyTo { src_id, target_id } => OperationJson::CopyTo {
                src_id: *src_id,
                target_id: *target_id,
            },
            OperationJson::Remove { id } => OperationJson::Remove { id: *id },
            OperationJson::InfoCodedVector { coded_id, data_id } => OperationJson::InfoCodedVector {
                coded_id: *coded_id,
                data_id: *data_id,
            },
        }
    }
}

impl OperationJson {
    /// The JSON form of an operation.
    pub fn from(op: &Operation) -> (j: OperationJson)
        ensures
            json_of(*op, j),
    {
        match op {
            Operation::EnsureZero { list_id } => OperationJson::EnsureZero {
                list_id: copy_ids(list_id),
            },
            Operation::MultiplyAlpha { id } => OperationJson::MultiplyAlpha { id: *id },
            Operation::MultiplyScalar { scalar, id } => OperationJson::MultiplyScalar {
                scalar: *scalar,
                id: *id,
            },
            Operation::AddOneToVector { src_id, target_id } => {
                let list_id = vec![*src_id];
                proof {
                    assert(list_id@ =~= seq![*src_id]);
                }
                OperationJson::AddToVector { list_id, target_id: *target_id }
            },
            Operation::AddTwoToVector { s0, s1, target_id } => {
                let list_id = vec![*s0, *s1];
                proof {
                    assert(list_id@ =~= seq![*s0, *s1]);
                }
                OperationJson::AddToVector { list_id, target_id: *target_id }
            },
            Operation::AddThreeToVector { s0, s1, s2, target_id } => {
                let list_id = vec![*s0, *s1, *s2];
                proof {
                    assert(list_id@ =~= seq![*s0, *s1, *s2]);
                }
                OperationJson::AddToVector { list_id, target_id: *target_id }
            },
            Operation::AddToVector { list_id, target_id } => OperationJson::AddToVector {
                list_id: copy_ids(list_id),
                target_id: *target_id,
            },
            Operation::BroadcastAdd { src_id, target_ids } => OperationJson::BroadcastAdd {
                src_id: *src_id,
                target_ids: copy_ids(target_ids),
            },
            Operation::MulAdd { src_id, scalar, target_id } => OperationJson::MulAdd {
                src_id: *src_id,
                scalar: *scalar,
                target_id: *target_id,
            },
            Operation::MoveTo { src_id, target_id } => OperationJson::MoveTo {
                src_id: *src_id,
                target_id: *target_id,
            },
            Operation::CopyTo { src_id, target_id } => OperationJson::CopyTo {
                src_id: *src_id,
                target_id: *target_id,
            },
            Operation::Remove { id } => OperationJson::Remove { id: *id },
            Operation::InfoCodedVector { coded_id, data_id } => OperationJson::InfoCodedVector {
                coded_id: *coded_id,
                data_id: *data_id,
            },
        }
    }
}

impl Operation {
    /// The operation a JSON form describes.
    pub fn from(json: OperationJson) -> (op: Operation)
        ensures
            op_of(json, op),
    {
        match json {
            OperationJson::EnsureZero { list_id } => Operation::EnsureZero { list_id },
            OperationJson::MultiplyAlpha { id } => Operation::MultiplyAlpha { id },
            OperationJson::MultiplyScalar { scalar, id } => Operation::MultiplyScalar { scalar, id },
            OperationJson::AddToVector { list_id, target_id } => Operation::AddToVector {
                list_id,
                target_id,
            },
            OperationJson::BroadcastAdd { src_id, target_ids } => Operation::BroadcastAdd {
                src_id,
                target_ids,
            },
            OperationJson::MulAdd { src_id, scalar, target_id } => Operation::MulAdd {
                src_id,
                scalar,
                target_id,
            },
            OperationJson::MoveTo { src_id, target_id } => Operation::MoveTo { src_id, target_id },
            OperationJson::CopyTo { src_id, target_id } => Operation::CopyTo { src_id, target_id },
            OperationJson::Remove { id } => Operation::Remove { id },
            OperationJson::InfoCodedVector { coded_id, data_id } => Operation::InfoCodedVector {
                coded_id,
                data_id,
            },
        }
    }
}

/// The JSON forms of a sequence of operations.
fn to_json_ops(ops: &[Operation]) -> (r: Vec<OperationJson>)
    ensures
        jsons_of(ops@, r@),
{
    let mut r: Vec<OperationJson> = Vec::new();
    let n = ops.len();
    let mut i: usize = 0;
    while i < n
        invariant
            n == ops@.len(),
            0 <= i <= n,
            r@.len() == i,
            forall|k: int| 0 <= k < i ==> json_of(#[trigger] ops@[k], r@[k]),
        decreases n - i,
    {
        r.push(OperationJson::from(&ops[i]));
        i = i + 1;
    }
    r
}

/// The operations described by a sequence of JSON forms.
fn from_json_ops(ops: &[OperationJson]) -> (r: Vec<Operation>)
    ensures
        ops_of(ops@, r@),
{
    let mut r: Vec<Operation> = Vec::new();
    let n = ops.len();
    let mut i: usize = 0;
    while i < n
        invariant
            n == ops@.len(),
            0 <= i <= n,
            r@.len() == i,
            forall|k: int| 0 <= k < i ==> op_of(#[trigger] ops@[k], r@[k]),
        decreases n - i,
    {
        let j = ops[i].clone();
        let op = Operation::from(j);
        proof {
            lemma_op_of_same_json(ops@[i as int], j, op);
        }
        r.push(op);
        i = i + 1;
    }
    r
}

proof fn lemma_op_of_same_json(a: OperationJson, b: OperationJson, op: Operation)
    requires
        same_json(a, b),
        op_of(b, op),
    ensures
        op_of(a, op),
{
}

/// Converting an operation to JSON and back yields an operation with the same effect on
/// every store of vectors, the same validity and the same growth bound.
pub proof fn lemma_json_round_trip_same_effect(
    op: Operation,
    j: OperationJson,
    back: Operation,
    m: Map<usize, Seq<u8>>,
    len: nat,
    p: u8,
    has_field: bool,
)
    requires
        json_of(op, j),
        op_of(j, back),
    ensures
        apply_op(m, len, p, back) == apply_op(m, len, p, op),
        op_valid(m, has_field, back) == op_valid(m, has_field, op),
        op_growth(back) == op_growth(op),
{
}

/// A JSON form read back as an operation and written out again is the same JSON form.
pub proof fn lemma_json_stable(j: OperationJson, op: Operation, j2: OperationJson)
    requires
        op_of(j, op),
        json_of(op, j2),
    ensures
        same_json(j, j2),
{
}

proof fn lemma_ops_of_concat(
    a: Seq<OperationJson>,
    x: Seq<Operation>,
    b: Seq<OperationJson>,
    y: Seq<Operation>,
)
    requires
        ops_of(a, x),
        ops_of(b, y),
    ensures
        ops_of(a + b, x + y),
{
    assert forall|i: int| 0 <= i < (a + b).len() implies op_of(#[trigger] (a + b)[i], (x + y)[i]) by {
        if i < a.len() {
            assert(op_of(a[i], x[i]));
        } else {
            assert(op_of(b[i - a.len()], y[i - a.len()]));
        }
    }
}

/// The decimal digit character for `d < 10`.
pub open spec fn digit_char(d: nat) -> char {
    (d + 48) as char
}

/// The decimal representation of `n`, without leading zeros.
pub open spec fn decimal(n: nat) -> Seq<char>
    decreases n,
{
    if n < 10 {
        seq![digit_char(n)]
    } else {
        decimal(n / 10).push(digit_char(n % 10))
    }
}

/// The number a string of decimal digits reads as, most significant digit first.
pub open spec fn read_decimal(s: Seq<char>) -> int
    decreases s.len(),
{
    if s.len() == 0 {
        0
    } else {
        read_decimal(s.drop_last()) * 10 + (s.last() as int - 48)
    }
}

/// The digits written for `n` are decimal digits that read back as `n`, with no leading
/// zero (only `0` itself starts with `'0'`).
pub proof fn law_decimal_reads_back(n: nat)
    ensures
        decimal(n).len() >= 1,
        forall|i: int| 0 <= i < decimal(n).len() ==> '0' <= #[trigger] decimal(n)[i] <= '9',
        read_decimal(decimal(n)) == n,
        n > 0 ==> decimal(n)[0] != '0',
    decreases n,
{
    if n >= 10 {
        law_decimal_reads_back(n / 10);
        let d = decimal(n);
        let prev = decimal(n / 10);
        assert(d == prev.push(digit_char(n % 10)));
        assert(d.drop_last() =~= prev);
        assert(d[0] == prev[0]);
        assert forall|i: int| 0 <= i < d.len() implies '0' <= #[trigger] d[i] <= '9' by {
            if i < prev.len() {
                assert(d[i] == prev[i]);
            }
        }
        assert(digit_char(n % 10) as int == n % 10 + 48);
        assert(read_decimal(d) == read_decimal(prev) * 10 + (n % 10));
        assert(n == (n / 10) * 10 + n % 10);
    } else {
        let d = decimal(n);
        assert(digit_char(n) as int == n + 48);
        assert(d.drop_last() =~= Seq::<char>::empty());
        assert(read_decimal(d) == read_decimal(Seq::<char>::empty()) * 10 + (n as int));
    }
}

/// `String::push`: appends one character.
#[verifier::external_body]
fn string_push(s: &mut String, c: char)
    ensures
        final(s)@ == old(s)@.push(c),
{
    s.push(c);
}

/// Appends the decimal representation of `n`.
fn push_decimal(s: &mut String, n: usize)
    ensures
        final(s)@ == old(s)@ + decimal(n as nat),
    decreases n,
{
    if n >= 10 {
        push_decimal(s, n / 10);
    }
    let d = (n % 10) as u8;
    let c = (d + 48u8) as char;
    proof {
        assert(c == digit_char((n % 10) as nat));
    }
    string_push(s, c);
    proof {
        if n >= 10 {
            assert(decimal(n as nat) == decimal((n / 10) as nat).push(digit_char((n % 10) as nat)));
        }
    }
}

/// A persistent encode/decode operation log.
pub struct CapturedTrace {
    pub name: String,
    pub scheme: String,
    pub k: usize,
    pub symbol_size: usize,
    /// `None` for GF(2); `Some(pp)` for GF(256).
    pub field_pp: Option<u16>,
    pub precoding: Vec<OperationJson>,
    pub encoding: Vec<OperationJson>,
    pub decoding: Vec<OperationJson>,
}

impl CapturedTrace {
    /// Precoding, then encoding, then decoding operations.
    pub fn all_operations(&self) -> (r: Vec<Operation>)
        ensures
            ops_of(self.precoding@ + self.encoding@ + self.decoding@, r@),
    {
        let mut ops = from_json_ops(self.precoding.as_slice());
        let mut enc = from_json_ops(self.encoding.as_slice());
        let mut dec = from_json_ops(self.decoding.as_slice());
        proof {
            lemma_ops_of_concat(self.precoding@, ops@, self.encoding@, enc@);
            lemma_ops_of_concat(self.precoding@ + self.encoding@, ops@ + enc@, self.decoding@, dec@);
        }
        ops.append(&mut enc);
        ops.append(&mut dec);
        ops
    }

    pub fn precoding_operations(&self) -> (r: Vec<Operation>)
        ensures
            ops_of(self.precoding@, r@),
    {
        from_json_ops(self.precoding.as_slice())
    }

    pub fn encoding_operations(&self) -> (r: Vec<Operation>)
        ensures
            ops_of(self.encoding@, r@),
    {
        from_json_ops(self.encoding.as_slice())
    }

    pub fn decoding_operations(&self) -> (r: Vec<Operation>)
        ensures
            ops_of(self.decoding@, r@),
    {
        from_json_ops(self.decoding.as_slice())
    }

    /// Precoding then encoding: valid on a fresh operator with messages `0..k` inserted.
    pub fn encoder_operations(&self) -> (r: Vec<Operation>)
        ensures
            ops_of(self.precoding@ + self.encoding@, r@),
    {
        let mut ops = self.precoding_operations();
        let mut enc = self.encoding_operations();
        proof {
            lemma_ops_of_concat(self.precoding@, ops@, self.encoding@, enc@);
        }
        ops.append(&mut enc);
        ops
    }

    /// Suggested file name: `{name}_k{k}_t{symbol_size}.json`.
    pub fn suggested_filename(&self) -> (r: String)
        ensures
            r@ == self.name@ + seq!['_', 'k'] + decimal(self.k as nat) + seq!['_', 't'] + decimal(
                self.symbol_size as nat,
            ) + seq!['.', 'j', 's', 'o', 'n'],
    {
        let mut s = String::new();
        s.append(self.name.as_str());
        string_push(&mut s, '_');
        string_push(&mut s, 'k');
        push_decimal(&mut s, self.k);
        string_push(&mut s, '_');
        string_push(&mut s, 't');
        push_decimal(&mut s, self.symbol_size);
        string_push(&mut s, '.');
        string_push(&mut s, 'j');
        string_push(&mut s, 's');
        string_push(&mut s, 'o');
        string_push(&mut s, 'n');
        proof {
            assert(s@ =~= self.name@ + seq!['_', 'k'] + decimal(self.k as nat) + seq!['_', 't']
                + decimal(self.symbol_size as nat) + seq!['.', 'j', 's', 'o', 'n']);
        }
        s
    }

    /// A trace from the operation logs of one roundtrip.
    pub fn from_roundtrip(
        name: String,
        scheme: String,
        k: usize,
        symbol_size: usize,
        field_pp: Option<u16>,
        precoding: &[Operation],
        encoding: &[Operation],
        decoding: &[Operation],
    ) -> (t: Self)
        ensures
            t.name@ == name@,
            t.scheme@ == scheme@,
            t.k == k,
            t.symbol_size == symbol_size,
            t.field_pp == field_pp,
            jsons_of(precoding@, t.precoding@),
            jsons_of(encoding@, t.encoding@),
            jsons_of(decoding@, t.decoding@),
    {
        CapturedTrace {
            name,
            scheme,
            k,
            symbol_size,
            field_pp,
            precoding: to_json_ops(precoding),
            encoding: to_json_ops(encoding),
            decoding: to_json_ops(decoding),
        }
    }
}

} // verus!
