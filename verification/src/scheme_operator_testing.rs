//! Inputs and outcomes of scheme-driven encode/decode roundtrips.

use crate::operation::{same_op, Operation};
use vstd::prelude::*;

verus! {

/// Outcome of an on-the-fly or delayed-replay scheme roundtrip.
#[derive(Debug, Clone)]
pub struct RoundtripResult {
    pub num_mismatches: usize,
    pub decoded: bool,
    pub precoding_ops: Vec<Operation>,
    pub encoding_ops: Vec<Operation>,
    pub decoding_ops: Vec<Operation>,
}

/// `b` holds copies of the operations of `a`, in order.
pub open spec fn same_ops(a: Seq<Operation>, b: Seq<Operation>) -> bool {
    &&& a.len() == b.len()
    &&& forall|i: int| 0 <= i < a.len() ==> same_op(#[trigger] a[i], b[i])
}

fn copy_ops(ops: &Vec<Operation>) -> (r: Vec<Operation>)
    ensures
        same_ops(ops@, r@),
{
    let mut r: Vec<Operation> = Vec::new();
    let n = ops.len();
    let mut i: usize = 0;
    while i < n
        invariant
            n == ops@.len(),
            0 <= i <= n,
            r@.len() == i,
            forall|k: int| 0 <= k < i ==> same_op(#[trigger] ops@[k], r@[k]),
        decreases n - i,
    {
        r.push(ops[i].clone());
        i = i + 1;
    }
    r
}

impl RoundtripResult {
    /// Decoding finished and every message vector came back unchanged.
    pub fn success(&self) -> (b: bool)
        ensures
            b == (self.decoded && self.num_mismatches == 0),
    {
        self.decoded && self.num_mismatches == 0
    }

    /// The whole operation log: precoding, then encoding, then decoding.
    pub fn all_operations(&self) -> (r: Vec<Operation>)
        ensures
            same_ops(self.precoding_ops@ + self.encoding_ops@ + self.decoding_ops@, r@),
    {
        let mut ops = copy_ops(&self.precoding_ops);
        let mut enc = copy_ops(&self.encoding_ops);
        let mut dec = copy_ops(&self.decoding_ops);
        let ghost all = self.precoding_ops@ + self.encoding_ops@ + self.decoding_ops@;
        ops.append(&mut enc);
        ops.append(&mut dec);
        proof {
            assert forall|i: int| 0 <= i < all.len() implies same_op(#[trigger] all[i], ops@[i]) by {
                let a = self.precoding_ops@.len() as int;
                let b = self.encoding_ops@.len() as int;
                if i < a {
                    assert(all[i] == self.precoding_ops@[i]);
                } else if i < a + b {
                    assert(all[i] == self.encoding_ops@[i - a]);
                } else {
                    assert(all[i] == self.decoding_ops@[i - a - b]);
                }
            }
        }
        ops
    }
}

/// The test payload byte of message `i` at position `j`.
pub open spec fn message_byte(i: int, j: int) -> u8 {
    ((i * 7 + j * 13) % 256) as u8
}

/// Deterministic message payloads: `k` vectors of `symbol_size` bytes, byte `j` of vector
/// `i` being `(7 i + 13 j) mod 256`.
pub fn make_test_messages(k: usize, symbol_size: usize) -> (r: Vec<Vec<u8>>)
    requires
        k > 0 && symbol_size > 0 ==> (k - 1) * 7 + (symbol_size - 1) * 13 <= usize::MAX,
    ensures
        r@.len() == k,
        forall|i: int| 0 <= i < k ==> (#[trigger] r@[i])@.len() == symbol_size,
        forall|i: int, j: int|
            0 <= i < k && 0 <= j < symbol_size ==> #[trigger] r@[i]@[j] == message_byte(i, j),
        forall|i: int, j: int|
            0 <= i < k && 0 <= j < symbol_size ==> #[trigger] r@[i]@[j] as int == (7 * i + 13 * j)
                % 256,
{
    let mut messages: Vec<Vec<u8>> = Vec::new();
    let mut i: usize = 0;
    while i < k
        invariant
            0 <= i <= k,
            k > 0 && symbol_size > 0 ==> (k - 1) * 7 + (symbol_size - 1) * 13 <= usize::MAX,
            messages@.len() == i,
            forall|a: int| 0 <= a < i ==> (#[trigger] messages@[a])@.len() == symbol_size,
            forall|a: int, b: int|
                0 <= a < i && 0 <= b < symbol_size ==> #[trigger] messages@[a]@[b]
                    == message_byte(a, b),
        decreases k - i,
    {
        let mut row: Vec<u8> = Vec::new();
        let mut j: usize = 0;
        while j < symbol_size
            invariant
                0 <= i < k,
                0 <= j <= symbol_size,
                symbol_size > 0 ==> (k - 1) * 7 + (symbol_size - 1) * 13 <= usize::MAX,
                row@.len() == j,
                forall|b: int| 0 <= b < j ==> #[trigger] row@[b] == message_byte(i as int, b),
            decreases symbol_size - j,
        {
            proof {
                assert(i * 7 + j * 13 <= (k - 1) * 7 + (symbol_size - 1) * 13) by (nonlinear_arith)
                    requires
                        i < k,
                        j < symbol_size,
                ;
            }
            let byte = ((i * 7 + j * 13) % 256) as u8;
            row.push(byte);
            j = j + 1;
        }
        messages.push(row);
        i = i + 1;
    }
    messages
}

/// LT-only coded IDs: `k .. 3k`.
pub fn lt_coded_ids(k: usize) -> (r: Vec<usize>)
    requires
        k * 3 <= usize::MAX,
    ensures
        r@ == Seq::new((2 * k) as nat, |i: int| (k + i) as usize),
{
    let mut r: Vec<usize> = Vec::new();
    let end = k * 3;
    let mut id = k;
    while id < end
        invariant
            k <= id <= end,
            end == k * 3,
            r@ == Seq::new((id - k) as nat, |i: int| (k + i) as usize),
        decreases end - id,
    {
        r.push(id);
        proof {
            assert(r@ =~= Seq::new((id + 1 - k) as nat, |i: int| (k + i) as usize));
        }
        id = id + 1;
    }
    r
}

/// The sizes of a fountain code's variable layout.
pub struct CodeParams {
    /// Total number of message vectors.
    pub k: usize,
    /// Number of active message vectors.
    pub a: usize,
    /// Number of inactive message vectors.
    pub b: usize,
    /// Number of LDPC constraint vectors.
    pub l: usize,
    /// Number of HDPC constraint vectors.
    pub h: usize,
    /// Number of pre-inactive variable vectors.
    pub i: usize,
}

impl CodeParams {
    /// The total number of variable vectors, `k + l + h`.
    pub fn num_total(&self) -> (n: usize)
        requires
            self.k + self.l + self.h <= usize::MAX,
        ensures
            n == self.k + self.l + self.h,
    {
        self.k + self.l + self.h
    }
}

/// Fountain-symbol coded IDs: `3k` consecutive IDs from `num_total + offset`.
pub fn fountain_coded_ids(params: &CodeParams, k: usize, offset: usize) -> (r: Vec<usize>)
    requires
        params.k + params.l + params.h + 3 * k + offset <= usize::MAX,
    ensures
        r@ == Seq::new(
            (3 * k) as nat,
            |i: int| (params.k + params.l + params.h + offset + i) as usize,
        ),
{
    let total = params.num_total();
    let start = total + offset;
    let end = total + 3 * k + offset;
    let mut r: Vec<usize> = Vec::new();
    let mut id = start;
    while id < end
        invariant
            start <= id <= end,
            start == total + offset,
            end == total + 3 * k + offset,
            total == params.k + params.l + params.h,
            r@ == Seq::new((id - start) as nat, |i: int| (start + i) as usize),
        decreases end - id,
    {
        r.push(id);
        proof {
            assert(r@ =~= Seq::new((id + 1 - start) as nat, |i: int| (start + i) as usize));
        }
        id = id + 1;
    }
    r
}

/// How many of the first `n` expected vectors differ from the actual ones.
pub open spec fn mismatches(actual: Seq<Vec<u8>>, expected: Seq<Vec<u8>>, n: int) -> nat
    decreases n,
{
    if n <= 0 {
        0
    } else {
        mismatches(actual, expected, n - 1) + if actual[n - 1]@ != expected[n - 1]@ {
            1nat
        } else {
            0nat
        }
    }
}

/// The indices below `n` at which the actual vector differs from the expected one.
pub open spec fn differing_indices(actual: Seq<Vec<u8>>, expected: Seq<Vec<u8>>, n: int) -> Set<
    int,
> {
    Set::new(|i: int| 0 <= i < n && actual[i]@ != expected[i]@)
}

/// Counting mismatches one index after another counts exactly the indices below `n` where the
/// two vectors differ: every such index once, and no other.
pub proof fn law_mismatches_count_differing_indices(
    actual: Seq<Vec<u8>>,
    expected: Seq<Vec<u8>>,
    n: int,
)
    requires
        0 <= n,
    ensures
        differing_indices(actual, expected, n).finite(),
        differing_indices(actual, expected, n).len() == mismatches(actual, expected, n),
    decreases n,
{
    let d = differing_indices(actual, expected, n);
    if n == 0 {
        assert(d =~= Set::<int>::empty());
    } else {
        law_mismatches_count_differing_indices(actual, expected, n - 1);
        let t = differing_indices(actual, expected, n - 1);
        if actual[n - 1]@ != expected[n - 1]@ {
            assert(d =~= t.insert(n - 1));
            assert(!t.contains(n - 1));
        } else {
            assert(d =~= t);
        }
    }
}

/// The number of message vectors not recovered: all of them when decoding did not finish,
/// otherwise the number whose decoded bytes differ from the message.
pub fn count_message_mismatches(
    decoded_vectors: &[Vec<u8>],
    message_vectors: &[Vec<u8>],
    decoded: bool,
) -> (r: usize)
    requires
        decoded ==> decoded_vectors@.len() == message_vectors@.len(),
    ensures
        !decoded ==> r == message_vectors@.len(),
        decoded ==> r == mismatches(
            decoded_vectors@,
            message_vectors@,
            message_vectors@.len() as int,
        ),
        decoded ==> r == Set::new(
            |i: int|
                0 <= i < message_vectors@.len() && decoded_vectors@[i]@ != message_vectors@[i]@,
        ).len(),
{
    if !decoded {
        return message_vectors.len();
    }
    let n = message_vectors.len();
    let mut count: usize = 0;
    let mut i: usize = 0;
    while i < n
        invariant
            n == message_vectors@.len(),
            decoded_vectors@.len() == n,
            0 <= i <= n,
            count == mismatches(decoded_vectors@, message_vectors@, i as int),
            count <= i,
        decreases n - i,
    {
        let same = decoded_vectors[i] == message_vectors[i];
        proof {
            assert(same == (decoded_vectors@[i as int]@ == message_vectors@[i as int]@)) by {
                if same {
                    assert(decoded_vectors@[i as int]@ =~= message_vectors@[i as int]@);
                }
            }
        }
        if !same {
            count = count + 1;
        }
        i = i + 1;
    }
    proof {
        law_mismatches_count_differing_indices(decoded_vectors@, message_vectors@, n as int);
        assert(differing_indices(decoded_vectors@, message_vectors@, n as int) =~= Set::new(
            |i: int|
                0 <= i < message_vectors@.len() && decoded_vectors@[i]@ != message_vectors@[i]@,
        ));
    }
    count
}

} // verus!
