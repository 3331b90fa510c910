//! Contiguous byte slab with a `data_id -> slot` map.
//!
//! Slot `s` occupies bytes `[s * vector_len, (s + 1) * vector_len)` of one buffer. New IDs
//! always get a fresh slot at the end; removing an ID only unmaps it (its bytes stay).

use std::collections::HashMap;
use vstd::prelude::*;

verus! {

broadcast use vstd::std_specs::hash::group_hash_axioms;

/// The bytes of slot `slot` in a buffer whose slots are `len` bytes long.
pub open spec fn slot_of(data: Seq<u8>, len: nat, slot: int) -> Seq<u8> {
    data.subrange(slot * len, slot * len + len)
}

/// Element-wise XOR of two equally long byte sequences.
pub open spec fn xor_bytes(a: Seq<u8>, b: Seq<u8>) -> Seq<u8> {
    Seq::new(a.len(), |i: int| a[i] ^ b[i])
}

/// `n` zero bytes.
pub open spec fn zero_bytes(n: nat) -> Seq<u8> {
    Seq::new(n, |i: int| 0u8)
}

/// `x ^ y` when slot `src` is not slot `dest`; otherwise `x` unchanged.
pub open spec fn xor_unless(x: Seq<u8>, y: Seq<u8>, src: int, dest: int) -> Seq<u8> {
    if src == dest {
        x
    } else {
        xor_bytes(x, y)
    }
}

pub proof fn lemma_slot_in_range(s: int, n: int, len: int)
    requires
        0 <= s < n,
        0 <= len,
    ensures
        0 <= s * len,
        s * len + len <= n * len,
{
    assert(0 <= s * len) by (nonlinear_arith)
        requires
            0 <= s,
            0 <= len,
    ;
    assert(s * len + len <= n * len) by (nonlinear_arith)
        requires
            0 <= s < n,
            0 <= len,
    ;
}

proof fn lemma_slots_apart(a: int, b: int, len: int)
    requires
        0 <= a < b,
        0 <= len,
    ensures
        a * len + len <= b * len,
{
    assert(a * len + len <= b * len) by (nonlinear_arith)
        requires
            0 <= a < b,
            0 <= len,
    ;
}

/// Writing inside slot `s` leaves every other slot's bytes as they were.
proof fn lemma_other_slot_unchanged(d1: Seq<u8>, d2: Seq<u8>, len: nat, n: nat, s: int, t: int)
    requires
        d1.len() == n * len,
        d2.len() == d1.len(),
        0 <= s < n,
        0 <= t < n,
        s != t,
        forall|i: int|
            0 <= i < d1.len() && !(s * len <= i < s * len + len) ==> #[trigger] d1[i] == d2[i],
    ensures
        slot_of(d1, len, t) == slot_of(d2, len, t),
{
    lemma_slot_in_range(t, n as int, len as int);
    lemma_slot_in_range(s, n as int, len as int);
    if s < t {
        lemma_slots_apart(s, t, len as int);
    } else {
        lemma_slots_apart(t, s, len as int);
    }
    assert(slot_of(d1, len, t) =~= slot_of(d2, len, t));
}

/// Mutable access to `v[a..b]`: once the borrow ends, `v` holds the slice's final bytes there.
fn vec_range_mut(v: &mut Vec<u8>, a: usize, b: usize) -> (r: &mut [u8])
    requires
        a <= b <= old(v)@.len(),
    ensures
        r@ == old(v)@.subrange(a as int, b as int),
        final(v)@ == old(v)@.subrange(0, a as int) + final(r)@ + old(v)@.subrange(
            b as int,
            old(v)@.len() as int,
        ),
{
    let whole = v.as_mut_slice();
    let (_front, rest) = whole.split_at_mut(a);
    let (mid, _back) = rest.split_at_mut(b - a);
    mid
}

/// Mutable access to `v[d..d + len]` and shared access to the disjoint `v[s..s + len]`.
fn vec_pair_mut(v: &mut Vec<u8>, d: usize, s: usize, len: usize) -> (r: (&mut [u8], &[u8]))
    requires
        d + len <= s || s + len <= d,
        d + len <= old(v)@.len(),
        s + len <= old(v)@.len(),
    ensures
        r.0@ == old(v)@.subrange(d as int, d + len),
        r.1@ == old(v)@.subrange(s as int, s + len),
        final(v)@ == old(v)@.subrange(0, d as int) + final(r.0)@ + old(v)@.subrange(
            d + len,
            old(v)@.len() as int,
        ),
{
    let whole = v.as_mut_slice();
    if d < s {
        let (left, right) = whole.split_at_mut(s);
        let (_a, rest) = left.split_at_mut(d);
        let (dst, _b) = rest.split_at_mut(len);
        let (src, _c) = right.split_at_mut(len);
        let src_ref: &[u8] = src;
        (dst, src_ref)
    } else {
        let (left, right) = whole.split_at_mut(d);
        let (dst, _b) = right.split_at_mut(len);
        let (_a, rest) = left.split_at_mut(s);
        let (src, _c) = rest.split_at_mut(len);
        let src_ref: &[u8] = src;
        (dst, src_ref)
    }
}

/// One `Vec<u8>` backing store split into fixed-length slots, plus the `data_id -> slot` map.
///
/// Slot allocation matches the reference vector operator: a new ID always gets a fresh slot
/// at the end, and [`Self::remove_id`] only unmaps the ID.
pub struct SlabStorage {
    data: Vec<u8>,
    vector_len: usize,
    num_slots: usize,
    data_id_to_slot: HashMap<usize, usize>,
}

impl SlabStorage {
    /// Length of every stored vector.
    pub closed spec fn spec_vector_len(&self) -> nat {
        self.vector_len as nat
    }

    /// Number of slots allocated so far (mapped or not).
    pub closed spec fn spec_num_slots(&self) -> nat {
        self.num_slots as nat
    }

    /// The `data_id -> slot` map.
    pub closed spec fn slots(&self) -> Map<usize, usize> {
        self.data_id_to_slot@
    }

    /// The whole backing buffer.
    pub closed spec fn bytes(&self) -> Seq<u8> {
        self.data@
    }

    /// The bytes of one slot.
    pub open spec fn slot_bytes(&self, slot: int) -> Seq<u8> {
        slot_of(self.bytes(), self.spec_vector_len(), slot)
    }

    /// The stored vectors: each mapped ID with the bytes of its slot.
    pub open spec fn contents(&self) -> Map<usize, Seq<u8>> {
        Map::new(
            |id: usize| self.slots().contains_key(id),
            |id: usize| self.slot_bytes(self.slots()[id] as int),
        )
    }

    /// Whether `extra` more slots can be allocated without the buffer length leaving `isize`.
    pub open spec fn can_grow(&self, extra: nat) -> bool {
        &&& self.spec_num_slots() + extra <= usize::MAX
        &&& (self.spec_num_slots() + extra) * self.spec_vector_len() <= isize::MAX
    }

    /// The buffer holds exactly `num_slots` slots (and fits in `isize`), every mapped slot
    /// exists, and no two IDs
    /// share a slot.
    pub closed spec fn wf(&self) -> bool {
        &&& self.data@.len() == self.num_slots * self.vector_len
        &&& self.num_slots * self.vector_len <= isize::MAX
        &&& forall|id: usize| #[trigger]
            self.data_id_to_slot@.contains_key(id) ==> self.data_id_to_slot@[id] < self.num_slots
        &&& forall|a: usize, b: usize|
            #![trigger self.data_id_to_slot@[a], self.data_id_to_slot@[b]]
            self.data_id_to_slot@.contains_key(a) && self.data_id_to_slot@.contains_key(b) && a
                != b ==> self.data_id_to_slot@[a] != self.data_id_to_slot@[b]
    }

    pub proof fn lemma_wf_facts(&self)
        requires
            self.wf(),
        ensures
            self.bytes().len() == self.spec_num_slots() * self.spec_vector_len(),
            forall|id: usize| #[trigger]
                self.slots().contains_key(id) ==> self.slots()[id] < self.spec_num_slots(),
            forall|a: usize, b: usize|
                #![trigger self.slots()[a], self.slots()[b]]
                self.slots().contains_key(a) && self.slots().contains_key(b) && a != b
                    ==> self.slots()[a] != self.slots()[b],
            self.bytes().len() <= usize::MAX,
            self.can_grow(0),
    {
        assert(self.data@.len() == self.data.len());
    }

    /// `self` keeps the vector length of `earlier` and has at least as many slots.
    pub open spec fn extends(&self, earlier: &SlabStorage) -> bool {
        &&& self.spec_vector_len() == earlier.spec_vector_len()
        &&& self.spec_num_slots() >= earlier.spec_num_slots()
    }

    /// Along any run of states where each one extends the one before (as every mutating call
    /// of this type ensures), every later state extends every earlier one: the vector length
    /// never changes and the slot count never decreases.
    pub proof fn law_extends_along_run(states: Seq<SlabStorage>)
        requires
            forall|i: int| #![trigger states[i]] 0 < i < states.len() ==> states[i].extends(&states[i - 1]),
        ensures
            forall|i: int, j: int|
                #![trigger states[i], states[j]]
                0 <= i <= j < states.len() ==> states[j].extends(&states[i]),
    {
        assert forall|i: int, j: int| 0 <= i <= j < states.len() implies #[trigger] states[j].extends(
            &states[i],
        ) by {
            Self::lemma_extends_from(states, i, j);
        }
    }

    proof fn lemma_extends_from(states: Seq<SlabStorage>, i: int, j: int)
        requires
            forall|k: int| #![trigger states[k]] 0 < k < states.len() ==> states[k].extends(&states[k - 1]),
            0 <= i <= j < states.len(),
        ensures
            states[j].extends(&states[i]),
        decreases j - i,
    {
        if i < j {
            Self::lemma_extends_from(states, i, j - 1);
            assert(states[j].extends(&states[j - 1]));
        }
    }

    /// An empty slab for vectors of `vector_len` bytes.
    pub fn new(vector_len: usize) -> (s: Self)
        ensures
            s.wf(),
            s.spec_vector_len() == vector_len,
            s.spec_num_slots() == 0,
            s.slots() == Map::<usize, usize>::empty(),
            s.contents() == Map::<usize, Seq<u8>>::empty(),
    {
        let s = SlabStorage {
            data: Vec::new(),
            vector_len,
            num_slots: 0,
            data_id_to_slot: HashMap::new(),
        };
        assert(s.contents() =~= Map::<usize, Seq<u8>>::empty());
        s
    }

    pub fn vector_len(&self) -> (r: usize)
        ensures
            r == self.spec_vector_len(),
    {
        self.vector_len
    }

    pub fn num_slots(&self) -> (r: usize)
        ensures
            r == self.spec_num_slots(),
    {
        self.num_slots
    }

    pub fn contains_id(&self, data_id: usize) -> (b: bool)
        ensures
            b == self.slots().contains_key(data_id),
    {
        self.data_id_to_slot.contains_key(&data_id)
    }

    /// The slot of `data_id`, if it is mapped.
    pub fn slot_for_id_opt(&self, data_id: usize) -> (r: Option<usize>)
        ensures
            r == (if self.slots().contains_key(data_id) {
                Some(self.slots()[data_id])
            } else {
                None
            }),
    {
        match self.data_id_to_slot.get(&data_id) {
            Some(s) => Some(*s),
            None => None,
        }
    }

    /// The slot of a mapped `data_id`.
    pub fn slot_for_id(&self, data_id: usize) -> (r: usize)
        requires
            self.slots().contains_key(data_id),
        ensures
            r == self.slots()[data_id],
    {
        *self.data_id_to_slot.get(&data_id).unwrap()
    }

    /// The bytes of one slot.
    pub fn slot_slice(&self, slot: usize) -> (r: &[u8])
        requires
            self.wf(),
            slot < self.spec_num_slots() || self.spec_vector_len() == 0,
        ensures
            r@ == self.slot_bytes(slot as int),
    {
        let len = self.vector_len;
        if len == 0 {
            proof {
                assert(slot * len == 0) by (nonlinear_arith)
                    requires
                        len == 0,
                ;
            }
            return self.data.as_slice().split_at(0).0;
        }
        proof {
            self.lemma_wf_facts();
            lemma_slot_in_range(slot as int, self.num_slots as int, len as int);
        }
        let start = slot * len;
        &self.data[start..start + len]
    }

    /// Borrows the payload of a mapped `data_id`.
    pub fn get_by_id(&self, data_id: usize) -> (r: &[u8])
        requires
            self.wf(),
            self.contents().contains_key(data_id),
        ensures
            r@ == self.contents()[data_id],
    {
        let slot = self.slot_for_id(data_id);
        self.slot_slice(slot)
    }

    /// A write that touches only the bytes of slot `s` keeps the slab well formed and changes
    /// only the vectors stored in that slot.
    proof fn lemma_after_slot_write(old: SlabStorage, new: SlabStorage, s: int, nb: Seq<u8>)
        requires
            old.wf(),
            new.data_id_to_slot@ == old.data_id_to_slot@,
            new.num_slots == old.num_slots,
            new.vector_len == old.vector_len,
            new.data@.len() == old.data@.len(),
            0 <= s < old.num_slots,
            nb.len() == old.vector_len,
            forall|i: int|
                0 <= i < old.data@.len() && !(s * old.vector_len <= i < s * old.vector_len
                    + old.vector_len) ==> #[trigger] old.data@[i] == new.data@[i],
            forall|j: int|
                0 <= j < old.vector_len ==> #[trigger] new.data@[s * old.vector_len + j] == nb[j],
        ensures
            new.wf(),
            new.slot_bytes(s) == nb,
            forall|t: int|
                0 <= t < old.num_slots && t != s ==> #[trigger] new.slot_bytes(t) == old.slot_bytes(
                    t,
                ),
            new.contents().dom() == old.contents().dom(),
            forall|id: usize|
                #![trigger new.contents()[id]]
                old.slots().contains_key(id) && old.slots()[id] != s ==> new.contents()[id]
                    == old.contents()[id],
            forall|id: usize|
                #![trigger new.contents()[id]]
                old.slots().contains_key(id) && old.slots()[id] == s ==> new.contents()[id] == nb,
    {
        let len = old.vector_len as nat;
        let n = old.num_slots as nat;
        lemma_slot_in_range(s, n as int, len as int);
        assert forall|j: int| 0 <= j < len implies #[trigger] new.slot_bytes(s)[j] == nb[j] by {
            assert(new.data@[s * old.vector_len + j] == nb[j]);
        }
        assert(new.slot_bytes(s) =~= nb);
        assert forall|t: int| 0 <= t < old.num_slots && t != s implies #[trigger] new.slot_bytes(t)
            == old.slot_bytes(t) by {
            lemma_other_slot_unchanged(old.data@, new.data@, len, n, s, t);
        }
        assert(new.contents().dom() =~= old.contents().dom());
        assert forall|id: usize| old.slots().contains_key(id) && old.slots()[id] != s implies #[trigger]
            new.contents()[id] == old.contents()[id] by {
            let t = old.slots()[id] as int;
            lemma_other_slot_unchanged(old.data@, new.data@, len, n, s, t);
        }
    }

    /// Appends one zeroed slot and maps `data_id` to it.
    fn append_zero_slot(&mut self, data_id: usize) -> (slot: usize)
        requires
            old(self).wf(),
            !old(self).slots().contains_key(data_id),
            old(self).can_grow(1),
        ensures
            final(self).wf(),
            slot == old(self).spec_num_slots(),
            final(self).spec_num_slots() == old(self).spec_num_slots() + 1,
            final(self).spec_vector_len() == old(self).spec_vector_len(),
            final(self).slots() == old(self).slots().insert(data_id, slot),
            final(self).contents() == old(self).contents().insert(
                data_id,
                zero_bytes(old(self).spec_vector_len()),
            ),
    {
        let ghost old_self = *self;
        let slot = self.num_slots;
        proof {
            assert((self.num_slots + 1) * self.vector_len == self.num_slots * self.vector_len
                + self.vector_len) by (nonlinear_arith);
        }
        self.num_slots = self.num_slots + 1;
        let new_len = self.num_slots * self.vector_len;
        self.data.resize(new_len, 0u8);
        self.data_id_to_slot.insert(data_id, slot);
        proof {
            let len = self.vector_len as int;
            let n = old_self.num_slots as int;
            assert forall|i: int| n * len <= i < n * len + len implies #[trigger] self.data@[i]
                == 0u8 by {
                assert(cloned::<u8>(0u8, self.data@[i]));
            }
            assert forall|id: usize| #[trigger] self.data_id_to_slot@.contains_key(id)
                implies self.data_id_to_slot@[id] < self.num_slots by {
                if id != data_id {
                    assert(old_self.data_id_to_slot@.contains_key(id));
                }
            }
            assert forall|a: usize, b: usize|
                #![trigger self.data_id_to_slot@[a], self.data_id_to_slot@[b]]
                self.data_id_to_slot@.contains_key(a) && self.data_id_to_slot@.contains_key(b)
                    && a != b implies self.data_id_to_slot@[a] != self.data_id_to_slot@[b] by {
                if a != data_id && b != data_id {
                    assert(old_self.data_id_to_slot@.contains_key(a));
                    assert(old_self.data_id_to_slot@.contains_key(b));
                } else if a == data_id {
                    assert(old_self.data_id_to_slot@.contains_key(b));
                } else {
                    assert(old_self.data_id_to_slot@.contains_key(a));
                }
            }
            lemma_slot_in_range(n, n + 1, len);
            assert(self.slot_bytes(n) =~= zero_bytes(len as nat));
            assert forall|t: int| 0 <= t < n implies #[trigger] self.slot_bytes(t)
                == old_self.slot_bytes(t) by {
                lemma_slot_in_range(t, n, len);
                assert(self.slot_bytes(t) =~= old_self.slot_bytes(t));
            }
            assert forall|id: usize| #[trigger] old_self.slots().contains_key(id) implies
                self.slot_bytes(self.slots()[id] as int) == old_self.slot_bytes(
                    old_self.slots()[id] as int,
                ) by {
                assert(self.slots()[id] == old_self.slots()[id]);
            }
            assert(self.contents() =~= old_self.contents().insert(
                data_id,
                zero_bytes(len as nat),
            ));
        }
        slot
    }

    /// Sets every byte of `slot` to zero.
    fn zero_slot(&mut self, slot: usize)
        requires
            old(self).wf(),
            slot < old(self).spec_num_slots(),
        ensures
            final(self).wf(),
            final(self).slots() == old(self).slots(),
            final(self).spec_num_slots() == old(self).spec_num_slots(),
            final(self).spec_vector_len() == old(self).spec_vector_len(),
            final(self).slot_bytes(slot as int) == zero_bytes(old(self).spec_vector_len()),
            forall|t: int|
                0 <= t < old(self).spec_num_slots() && t != slot ==> #[trigger] final(self).slot_bytes(t) == old(self).slot_bytes(t),
            final(self).contents().dom() == old(self).contents().dom(),
            forall|id: usize|
                #![trigger final(self).contents()[id]]
                old(self).slots().contains_key(id) && old(self).slots()[id] != slot ==> final(self).contents()[id] == old(self).contents()[id],
            forall|id: usize|
                #![trigger final(self).contents()[id]]
                old(self).slots().contains_key(id) && old(self).slots()[id] == slot ==> final(self).contents()[id] == zero_bytes(old(self).spec_vector_len()),
    {
        let ghost old_self = *self;
        let len = self.vector_len;
        proof {
            self.lemma_wf_facts();
            lemma_slot_in_range(slot as int, self.num_slots as int, len as int);
        }
        let start = slot * len;
        let mut j: usize = 0;
        while j < len
            invariant
                self.wf() == old_self.wf(),
                old_self.wf(),
                self.data_id_to_slot@ == old_self.data_id_to_slot@,
                self.num_slots == old_self.num_slots,
                self.vector_len == len,
                old_self.vector_len == len,
                start == slot * len,
                start + len <= self.data@.len(),
                start + len <= usize::MAX,
                self.data@.len() == old_self.data@.len(),
                0 <= j <= len,
                forall|i: int|
                    0 <= i < old_self.data@.len() && !(start <= i < start + j) ==> #[trigger]
                    old_self.data@[i] == self.data@[i],
                forall|k: int| 0 <= k < j ==> #[trigger] self.data@[start + k] == 0u8,
            decreases len - j,
        {
            self.data.set(start + j, 0u8);
            j = j + 1;
        }
        proof {
            Self::lemma_after_slot_write(old_self, *self, slot as int, zero_bytes(len as nat));
        }
    }

    /// The stored vectors after the bytes of `slot` are replaced by `b`.
    pub open spec fn contents_with_slot(&self, slot: int, b: Seq<u8>) -> Map<usize, Seq<u8>> {
        Map::new(
            |id: usize| self.slots().contains_key(id),
            |id: usize|
                if self.slots()[id] as int == slot {
                    b
                } else {
                    self.slot_bytes(self.slots()[id] as int)
                },
        )
    }

    /// Everything but the bytes of `slot` is as in `old`, and those bytes are `b`.
    pub open spec fn is_slot_rewrite(&self, old: &SlabStorage, slot: int, b: Seq<u8>) -> bool {
        &&& self.wf()
        &&& self.slots() == old.slots()
        &&& self.spec_num_slots() == old.spec_num_slots()
        &&& self.spec_vector_len() == old.spec_vector_len()
        &&& self.slot_bytes(slot) == b
        &&& forall|t: int|
            0 <= t < old.spec_num_slots() && t != slot ==> #[trigger] self.slot_bytes(t)
                == old.slot_bytes(t)
        &&& self.contents() == old.contents_with_slot(slot, b)
    }

    proof fn lemma_rewrite_contents(old: SlabStorage, new: SlabStorage, s: int, nb: Seq<u8>)
        requires
            old.wf(),
            new.wf(),
            new.slots() == old.slots(),
            new.spec_num_slots() == old.spec_num_slots(),
            new.spec_vector_len() == old.spec_vector_len(),
            new.slot_bytes(s) == nb,
            forall|t: int|
                0 <= t < old.spec_num_slots() && t != s ==> #[trigger] new.slot_bytes(t)
                    == old.slot_bytes(t),
        ensures
            new.contents() == old.contents_with_slot(s, nb),
    {
        assert forall|id: usize| #[trigger] old.slots().contains_key(id) implies new.contents()[id]
            == old.contents_with_slot(s, nb)[id] by {
            let t = old.slots()[id] as int;
            assert(t < old.spec_num_slots());
        }
        assert(new.contents() =~= old.contents_with_slot(s, nb));
    }

    /// Copies `src` into the bytes of `slot`.
    fn write_slot(&mut self, slot: usize, src: &[u8])
        requires
            old(self).wf(),
            slot < old(self).spec_num_slots(),
            src@.len() == old(self).spec_vector_len(),
        ensures
            final(self).is_slot_rewrite(old(self), slot as int, src@),
    {
        let ghost old_self = *self;
        let len = self.vector_len;
        proof {
            self.lemma_wf_facts();
            lemma_slot_in_range(slot as int, self.num_slots as int, len as int);
        }
        let start = slot * len;
        let mut j: usize = 0;
        while j < len
            invariant
                old_self.wf(),
                self.data_id_to_slot@ == old_self.data_id_to_slot@,
                self.num_slots == old_self.num_slots,
                self.vector_len == len,
                old_self.vector_len == len,
                src@.len() == len,
                start == slot * len,
                start + len <= self.data@.len(),
                start + len <= usize::MAX,
                self.data@.len() == old_self.data@.len(),
                0 <= j <= len,
                forall|i: int|
                    0 <= i < old_self.data@.len() && !(start <= i < start + j) ==> #[trigger]
                    old_self.data@[i] == self.data@[i],
                forall|k: int| 0 <= k < j ==> #[trigger] self.data@[start + k] == src@[k],
            decreases len - j,
        {
            self.data.set(start + j, src[j]);
            j = j + 1;
        }
        proof {
            Self::lemma_after_slot_write(old_self, *self, slot as int, src@);
            Self::lemma_rewrite_contents(old_self, *self, slot as int, src@);
        }
    }

    /// Copies the bytes of slot `from` into slot `to` (distinct slots).
    fn copy_slot(&mut self, to: usize, from: usize)
        requires
            old(self).wf(),
            to < old(self).spec_num_slots(),
            from < old(self).spec_num_slots(),
            to != from,
        ensures
            final(self).is_slot_rewrite(old(self), to as int, old(self).slot_bytes(from as int)),
    {
        let ghost old_self = *self;
        let ghost nb = old_self.slot_bytes(from as int);
        let len = self.vector_len;
        proof {
            self.lemma_wf_facts();
            lemma_slot_in_range(to as int, self.num_slots as int, len as int);
            lemma_slot_in_range(from as int, self.num_slots as int, len as int);
            if to < from {
                lemma_slots_apart(to as int, from as int, len as int);
            } else {
                lemma_slots_apart(from as int, to as int, len as int);
            }
        }
        let start = to * len;
        let fstart = from * len;
        let mut j: usize = 0;
        while j < len
            invariant
                old_self.wf(),
                self.data_id_to_slot@ == old_self.data_id_to_slot@,
                self.num_slots == old_self.num_slots,
                self.vector_len == len,
                old_self.vector_len == len,
                nb == old_self.slot_bytes(from as int),
                nb.len() == len,
                start == to * len,
                fstart == from * len,
                start + len <= fstart || fstart + len <= start,
                start + len <= self.data@.len(),
                fstart + len <= self.data@.len(),
                start + len <= usize::MAX,
                fstart + len <= usize::MAX,
                self.data@.len() == old_self.data@.len(),
                0 <= j <= len,
                forall|i: int|
                    0 <= i < old_self.data@.len() && !(start <= i < start + j) ==> #[trigger]
                    old_self.data@[i] == self.data@[i],
                forall|k: int| 0 <= k < j ==> #[trigger] self.data@[start + k] == nb[k],
            decreases len - j,
        {
            let b = self.data[fstart + j];
            proof {
                assert(self.data@[fstart + j] == old_self.data@[fstart + j]);
                assert(nb[j as int] == old_self.data@[fstart + j]);
            }
            self.data.set(start + j, b);
            j = j + 1;
        }
        proof {
            Self::lemma_after_slot_write(old_self, *self, to as int, nb);
            Self::lemma_rewrite_contents(old_self, *self, to as int, nb);
        }
    }

    /// Returns the slot for `data_id`, allocating a zeroed slot at the end if it is missing.
    pub fn ensure_id_exists(&mut self, data_id: usize) -> (slot: usize)
        requires
            old(self).wf(),
            !old(self).slots().contains_key(data_id) ==> old(self).can_grow(1),
        ensures
            final(self).extends(old(self)),
            final(self).wf(),
            final(self).spec_vector_len() == old(self).spec_vector_len(),
            final(self).slots().contains_key(data_id),
            slot == final(self).slots()[data_id],
            slot < final(self).spec_num_slots(),
            old(self).slots().contains_key(data_id) ==> *final(self) == *old(self),
            !old(self).slots().contains_key(data_id) ==> {
                &&& slot == old(self).spec_num_slots()
                &&& final(self).spec_num_slots() == old(self).spec_num_slots() + 1
                &&& final(self).slots() == old(self).slots().insert(data_id, slot)
                &&& final(self).contents() == old(self).contents().insert(
                    data_id,
                    zero_bytes(old(self).spec_vector_len()),
                )
            },
    {
        match self.data_id_to_slot.get(&data_id) {
            Some(s) => *s,
            None => self.append_zero_slot(data_id),
        }
    }

    /// Zeros the slot of `data_id`, or allocates a new zeroed slot for it.
    pub fn ensure_zero_by_id(&mut self, data_id: usize)
        requires
            old(self).wf(),
            !old(self).slots().contains_key(data_id) ==> old(self).can_grow(1),
        ensures
            final(self).extends(old(self)),
            final(self).wf(),
            final(self).spec_vector_len() == old(self).spec_vector_len(),
            final(self).contents() == old(self).contents().insert(
                data_id,
                zero_bytes(old(self).spec_vector_len()),
            ),
            old(self).slots().contains_key(data_id) ==> {
                &&& final(self).slots() == old(self).slots()
                &&& final(self).spec_num_slots() == old(self).spec_num_slots()
            },
            !old(self).slots().contains_key(data_id) ==> {
                &&& final(self).spec_num_slots() == old(self).spec_num_slots() + 1
                &&& final(self).slots() == old(self).slots().insert(
                    data_id,
                    old(self).spec_num_slots() as usize,
                )
            },
    {
        match self.data_id_to_slot.get(&data_id) {
            Some(s) => {
                let slot = *s;
                let ghost old_self = *self;
                self.zero_slot(slot);
                proof {
                    Self::lemma_rewrite_contents(
                        old_self,
                        *self,
                        slot as int,
                        zero_bytes(old_self.spec_vector_len()),
                    );
                    self.lemma_single_owner(data_id, slot as int);
                    assert(self.contents() =~= old_self.contents().insert(
                        data_id,
                        zero_bytes(old_self.spec_vector_len()),
                    ));
                }
            },
            None => {
                self.append_zero_slot(data_id);
            },
        }
    }

    /// Only `owner` maps to `slot` when `owner` maps there.
    proof fn lemma_single_owner(&self, owner: usize, slot: int)
        requires
            self.wf(),
            self.slots().contains_key(owner),
            self.slots()[owner] == slot,
        ensures
            forall|id: usize|
                #[trigger] self.slots().contains_key(id) && id != owner ==> self.slots()[id]
                    != slot,
    {
        assert forall|id: usize| #[trigger]
            self.slots().contains_key(id) && id != owner implies self.slots()[id] != slot by {
            assert(self.data_id_to_slot@[id] != self.data_id_to_slot@[owner]);
        }
    }

    /// Writes `src` into the slot of `data_id`, allocating a slot if needed.
    pub fn insert_by_id(&mut self, data_id: usize, src: &[u8])
        requires
            old(self).wf(),
            src@.len() == old(self).spec_vector_len(),
            !old(self).slots().contains_key(data_id) ==> old(self).can_grow(1),
        ensures
            final(self).extends(old(self)),
            final(self).wf(),
            final(self).spec_vector_len() == old(self).spec_vector_len(),
            final(self).contents() == old(self).contents().insert(data_id, src@),
            old(self).slots().contains_key(data_id) ==> {
                &&& final(self).slots() == old(self).slots()
                &&& final(self).spec_num_slots() == old(self).spec_num_slots()
            },
            !old(self).slots().contains_key(data_id) ==> {
                &&& final(self).spec_num_slots() == old(self).spec_num_slots() + 1
                &&& final(self).slots() == old(self).slots().insert(
                    data_id,
                    old(self).spec_num_slots() as usize,
                )
            },
    {
        let ghost old_self = *self;
        let slot = self.ensure_id_exists(data_id);
        let ghost mid = *self;
        self.write_slot(slot, src);
        proof {
            mid.lemma_single_owner(data_id, slot as int);
            assert forall|id2: usize| #[trigger] self.contents().contains_key(id2) implies self.contents()[id2]
                == old_self.contents().insert(data_id, src@)[id2] by {
                if id2 != data_id {
                    assert(mid.slots()[id2] != slot);
                    assert(mid.contents().contains_key(id2));
                    assert(mid.contents()[id2] == old_self.contents()[id2]);
                }
            }
            assert(self.contents() =~= old_self.contents().insert(data_id, src@));
        }
    }

    /// Unmaps `data_id`; its slot's bytes stay in the buffer.
    pub fn remove_id(&mut self, data_id: usize)
        requires
            old(self).wf(),
            old(self).slots().contains_key(data_id),
        ensures
            final(self).extends(old(self)),
            final(self).wf(),
            final(self).spec_vector_len() == old(self).spec_vector_len(),
            final(self).spec_num_slots() == old(self).spec_num_slots(),
            final(self).bytes() == old(self).bytes(),
            final(self).slots() == old(self).slots().remove(data_id),
            final(self).contents() == old(self).contents().remove(data_id),
    {
        let ghost old_self = *self;
        self.data_id_to_slot.remove(&data_id);
        proof {
            assert forall|id: usize| #[trigger] self.data_id_to_slot@.contains_key(id)
                implies self.data_id_to_slot@[id] < self.num_slots by {
                assert(old_self.data_id_to_slot@.contains_key(id));
            }
            assert forall|a: usize, b: usize|
                #![trigger self.data_id_to_slot@[a], self.data_id_to_slot@[b]]
                self.data_id_to_slot@.contains_key(a) && self.data_id_to_slot@.contains_key(b)
                    && a != b implies self.data_id_to_slot@[a] != self.data_id_to_slot@[b] by {
                assert(old_self.data_id_to_slot@.contains_key(a));
                assert(old_self.data_id_to_slot@.contains_key(b));
            }
            assert(self.contents() =~= old_self.contents().remove(data_id));
        }
    }

    /// Remaps `src_id` to `target_id` on the same slot; no bytes move.
    pub fn move_id(&mut self, src_id: usize, target_id: usize)
        requires
            old(self).wf(),
            src_id != target_id ==> old(self).slots().contains_key(src_id),
        ensures
            final(self).extends(old(self)),
            final(self).wf(),
            final(self).spec_vector_len() == old(self).spec_vector_len(),
            final(self).spec_num_slots() == old(self).spec_num_slots(),
            final(self).bytes() == old(self).bytes(),
            src_id == target_id ==> final(self).slots() == old(self).slots(),
            src_id != target_id ==> final(self).slots() == old(self).slots().remove(src_id).insert(
                target_id,
                old(self).slots()[src_id],
            ),
            src_id == target_id ==> final(self).contents() == old(self).contents(),
            src_id != target_id ==> final(self).contents() == old(self).contents().remove(
                src_id,
            ).insert(target_id, old(self).contents()[src_id]),
    {
        if src_id == target_id {
            return;
        }
        let ghost old_self = *self;
        let slot = self.slot_for_id(src_id);
        self.data_id_to_slot.remove(&src_id);
        self.data_id_to_slot.insert(target_id, slot);
        proof {
            assert forall|id: usize| #[trigger] self.data_id_to_slot@.contains_key(id)
                implies self.data_id_to_slot@[id] < self.num_slots by {
                if id != target_id {
                    assert(old_self.data_id_to_slot@.contains_key(id));
                }
            }
            assert forall|a: usize, b: usize|
                #![trigger self.data_id_to_slot@[a], self.data_id_to_slot@[b]]
                self.data_id_to_slot@.contains_key(a) && self.data_id_to_slot@.contains_key(b)
                    && a != b implies self.data_id_to_slot@[a] != self.data_id_to_slot@[b] by {
                if a != target_id {
                    assert(old_self.data_id_to_slot@.contains_key(a));
                    assert(a != src_id);
                }
                if b != target_id {
                    assert(old_self.data_id_to_slot@.contains_key(b));
                    assert(b != src_id);
                }
                if a == target_id {
                    assert(old_self.data_id_to_slot@[b] != old_self.data_id_to_slot@[src_id]);
                }
                if b == target_id {
                    assert(old_self.data_id_to_slot@[a] != old_self.data_id_to_slot@[src_id]);
                }
            }
            assert(self.slots() =~= old_self.slots().remove(src_id).insert(target_id, slot));
            assert(self.contents() =~= old_self.contents().remove(src_id).insert(
                target_id,
                old_self.contents()[src_id],
            ));
        }
    }

    /// Copies the payload of `src_id` into `target_id`, allocating `target_id` if needed.
    pub fn copy_id(&mut self, src_id: usize, target_id: usize)
        requires
            old(self).wf(),
            src_id != target_id ==> old(self).slots().contains_key(src_id),
            src_id != target_id && !old(self).slots().contains_key(target_id) ==> old(
                self,
            ).can_grow(1),
        ensures
            final(self).extends(old(self)),
            final(self).wf(),
            final(self).spec_vector_len() == old(self).spec_vector_len(),
            src_id == target_id ==> *final(self) == *old(self),
            src_id != target_id ==> final(self).contents() == old(self).contents().insert(
                target_id,
                old(self).contents()[src_id],
            ),
            src_id != target_id && old(self).slots().contains_key(target_id) ==> {
                &&& final(self).slots() == old(self).slots()
                &&& final(self).spec_num_slots() == old(self).spec_num_slots()
            },
            src_id != target_id && !old(self).slots().contains_key(target_id) ==> {
                &&& final(self).spec_num_slots() == old(self).spec_num_slots() + 1
                &&& final(self).slots() == old(self).slots().insert(
                    target_id,
                    old(self).spec_num_slots() as usize,
                )
            },
    {
        if src_id == target_id {
            return;
        }
        let ghost old_self = *self;
        let src_slot = self.slot_for_id(src_id);
        let target_slot = self.ensure_id_exists(target_id);
        let ghost mid = *self;
        proof {
            mid.lemma_single_owner(target_id, target_slot as int);
            assert(mid.slots().contains_key(src_id));
            assert(mid.slots()[src_id] == src_slot);
            assert(src_slot < mid.spec_num_slots());
            assert(mid.contents().contains_key(src_id));
            assert(mid.contents()[src_id] == old_self.contents()[src_id]);
            assert(mid.slot_bytes(src_slot as int) == old_self.contents()[src_id]);
        }
        self.copy_slot(target_slot, src_slot);
        proof {
            assert forall|id2: usize| #[trigger] self.contents().contains_key(id2) implies self.contents()[id2]
                == old_self.contents().insert(target_id, old_self.contents()[src_id])[id2] by {
                if id2 != target_id {
                    assert(mid.slots()[id2] != target_slot);
                    assert(mid.contents().contains_key(id2));
                    assert(mid.contents()[id2] == old_self.contents()[id2]);
                }
            }
            assert(self.contents() =~= old_self.contents().insert(
                target_id,
                old_self.contents()[src_id],
            ));
        }
    }

    proof fn lemma_slots_disjoint(x: int, y: int, n: int, len: int)
        requires
            0 <= x < n,
            0 <= y < n,
            x != y,
            0 <= len,
        ensures
            x * len + len <= y * len || y * len + len <= x * len,
            0 <= x * len,
            x * len + len <= n * len,
    {
        lemma_slot_in_range(x, n, len);
        if x < y {
            lemma_slots_apart(x, y, len);
        } else {
            lemma_slots_apart(y, x, len);
        }
    }

    /// `dest[i] ^= src[i]` for two distinct slots.
    pub fn xor_slots(&mut self, dest_slot: usize, src_slot: usize)
        requires
            old(self).wf(),
            dest_slot != src_slot,
            dest_slot < old(self).spec_num_slots(),
            src_slot < old(self).spec_num_slots(),
        ensures
            final(self).extends(old(self)),
            final(self).is_slot_rewrite(
                old(self),
                dest_slot as int,
                xor_bytes(old(self).slot_bytes(dest_slot as int), old(self).slot_bytes(src_slot as int)),
            ),
    {
        let ghost old_self = *self;
        let ghost nb = xor_bytes(
            old_self.slot_bytes(dest_slot as int),
            old_self.slot_bytes(src_slot as int),
        );
        let len = self.vector_len;
        proof {
            self.lemma_wf_facts();
            Self::lemma_slots_disjoint(dest_slot as int, src_slot as int, self.num_slots as int, len as int);
            Self::lemma_slots_disjoint(src_slot as int, dest_slot as int, self.num_slots as int, len as int);
        }
        let start = dest_slot * len;
        let sstart = src_slot * len;
        let mut j: usize = 0;
        while j < len
            invariant
                old_self.wf(),
                self.data_id_to_slot@ == old_self.data_id_to_slot@,
                self.num_slots == old_self.num_slots,
                self.vector_len == len,
                old_self.vector_len == len,
                nb == xor_bytes(old_self.slot_bytes(dest_slot as int), old_self.slot_bytes(src_slot as int)),
                start == dest_slot * len,
                sstart == src_slot * len,
                start + len <= sstart || sstart + len <= start,
                start + len <= self.data@.len(),
                sstart + len <= self.data@.len(),
                start + len <= usize::MAX,
                sstart + len <= usize::MAX,
                self.data@.len() == old_self.data@.len(),
                0 <= j <= len,
                forall|i: int|
                    0 <= i < old_self.data@.len() && !(start <= i < start + j) ==> #[trigger]
                    old_self.data@[i] == self.data@[i],
                forall|k: int| 0 <= k < j ==> #[trigger] self.data@[start + k] == nb[k],
            decreases len - j,
        {
            let d = self.data[start + j];
            let s = self.data[sstart + j];
            proof {
                assert(self.data@[sstart + j] == old_self.data@[sstart + j]);
                assert(self.data@[start + j] == old_self.data@[start + j]);
                assert(old_self.slot_bytes(dest_slot as int)[j as int] == old_self.data@[start + j]);
                assert(old_self.slot_bytes(src_slot as int)[j as int] == old_self.data@[sstart + j]);
            }
            self.data.set(start + j, d ^ s);
            j = j + 1;
        }
        proof {
            Self::lemma_after_slot_write(old_self, *self, dest_slot as int, nb);
            Self::lemma_rewrite_contents(old_self, *self, dest_slot as int, nb);
        }
    }

    /// `dest ^= a ^ b` in one pass over three distinct slots.
    fn xor_two_distinct(&mut self, dest_slot: usize, a_slot: usize, b_slot: usize)
        requires
            old(self).wf(),
            dest_slot != a_slot,
            dest_slot != b_slot,
            a_slot != b_slot,
            dest_slot < old(self).spec_num_slots(),
            a_slot < old(self).spec_num_slots(),
            b_slot < old(self).spec_num_slots(),
        ensures
            final(self).is_slot_rewrite(
                old(self),
                dest_slot as int,
                xor_bytes(
                    xor_bytes(old(self).slot_bytes(dest_slot as int), old(self).slot_bytes(a_slot as int)),
                    old(self).slot_bytes(b_slot as int),
                ),
            ),
    {
        let ghost old_self = *self;
        let ghost nb = xor_bytes(
            xor_bytes(old_self.slot_bytes(dest_slot as int), old_self.slot_bytes(a_slot as int)),
            old_self.slot_bytes(b_slot as int),
        );
        let len = self.vector_len;
        proof {
            self.lemma_wf_facts();
            Self::lemma_slots_disjoint(dest_slot as int, a_slot as int, self.num_slots as int, len as int);
            Self::lemma_slots_disjoint(a_slot as int, dest_slot as int, self.num_slots as int, len as int);
            Self::lemma_slots_disjoint(dest_slot as int, b_slot as int, self.num_slots as int, len as int);
            Self::lemma_slots_disjoint(b_slot as int, dest_slot as int, self.num_slots as int, len as int);
        }
        let start = dest_slot * len;
        let astart = a_slot * len;
        let bstart = b_slot * len;
        let mut j: usize = 0;
        while j < len
            invariant
                old_self.wf(),
                self.data_id_to_slot@ == old_self.data_id_to_slot@,
                self.num_slots == old_self.num_slots,
                self.vector_len == len,
                old_self.vector_len == len,
                nb == xor_bytes(
                    xor_bytes(old_self.slot_bytes(dest_slot as int), old_self.slot_bytes(a_slot as int)),
                    old_self.slot_bytes(b_slot as int),
                ),
                start == dest_slot * len,
                astart == a_slot * len,
                bstart == b_slot * len,
                start + len <= astart || astart + len <= start,
                start + len <= bstart || bstart + len <= start,
                start + len <= self.data@.len(),
                astart + len <= self.data@.len(),
                bstart + len <= self.data@.len(),
                start + len <= usize::MAX,
                astart + len <= usize::MAX,
                bstart + len <= usize::MAX,
                self.data@.len() == old_self.data@.len(),
                0 <= j <= len,
                forall|i: int|
                    0 <= i < old_self.data@.len() && !(start <= i < start + j) ==> #[trigger]
                    old_self.data@[i] == self.data@[i],
                forall|k: int| 0 <= k < j ==> #[trigger] self.data@[start + k] == nb[k],
            decreases len - j,
        {
            let d = self.data[start + j];
            let x = self.data[astart + j];
            let y = self.data[bstart + j];
            proof {
                assert(self.data@[astart + j] == old_self.data@[astart + j]);
                assert(self.data@[bstart + j] == old_self.data@[bstart + j]);
                assert(self.data@[start + j] == old_self.data@[start + j]);
                assert(old_self.slot_bytes(dest_slot as int)[j as int] == old_self.data@[start + j]);
                assert(old_self.slot_bytes(a_slot as int)[j as int] == old_self.data@[astart + j]);
                assert(old_self.slot_bytes(b_slot as int)[j as int] == old_self.data@[bstart + j]);
            }
            self.data.set(start + j, d ^ x ^ y);
            j = j + 1;
        }
        proof {
            Self::lemma_after_slot_write(old_self, *self, dest_slot as int, nb);
            Self::lemma_rewrite_contents(old_self, *self, dest_slot as int, nb);
        }
    }

    /// `dest ^= a ^ b ^ c` in one pass over four distinct slots.
    fn xor_three_distinct(
        &mut self,
        dest_slot: usize,
        a_slot: usize,
        b_slot: usize,
        c_slot: usize,
    )
        requires
            old(self).wf(),
            dest_slot != a_slot,
            dest_slot != b_slot,
            dest_slot != c_slot,
            a_slot != b_slot,
            a_slot != c_slot,
            b_slot != c_slot,
            dest_slot < old(self).spec_num_slots(),
            a_slot < old(self).spec_num_slots(),
            b_slot < old(self).spec_num_slots(),
            c_slot < old(self).spec_num_slots(),
        ensures
            final(self).is_slot_rewrite(
                old(self),
                dest_slot as int,
                xor_bytes(
                    xor_bytes(
                        xor_bytes(old(self).slot_bytes(dest_slot as int), old(self).slot_bytes(a_slot as int)),
                        old(self).slot_bytes(b_slot as int),
                    ),
                    old(self).slot_bytes(c_slot as int),
                ),
            ),
    {
        let ghost old_self = *self;
        let ghost nb = xor_bytes(
            xor_bytes(
                xor_bytes(old_self.slot_bytes(dest_slot as int), old_self.slot_bytes(a_slot as int)),
                old_self.slot_bytes(b_slot as int),
            ),
            old_self.slot_bytes(c_slot as int),
        );
        let len = self.vector_len;
        proof {
            self.lemma_wf_facts();
            Self::lemma_slots_disjoint(dest_slot as int, a_slot as int, self.num_slots as int, len as int);
            Self::lemma_slots_disjoint(a_slot as int, dest_slot as int, self.num_slots as int, len as int);
            Self::lemma_slots_disjoint(dest_slot as int, b_slot as int, self.num_slots as int, len as int);
            Self::lemma_slots_disjoint(b_slot as int, dest_slot as int, self.num_slots as int, len as int);
            Self::lemma_slots_disjoint(dest_slot as int, c_slot as int, self.num_slots as int, len as int);
            Self::lemma_slots_disjoint(c_slot as int, dest_slot as int, self.num_slots as int, len as int);
        }
        let start = dest_slot * len;
        let astart = a_slot * len;
        let bstart = b_slot * len;
        let cstart = c_slot * len;
        let mut j: usize = 0;
        while j < len
            invariant
                old_self.wf(),
                self.data_id_to_slot@ == old_self.data_id_to_slot@,
                self.num_slots == old_self.num_slots,
                self.vector_len == len,
                old_self.vector_len == len,
                nb == xor_bytes(
                    xor_bytes(
                        xor_bytes(old_self.slot_bytes(dest_slot as int), old_self.slot_bytes(a_slot as int)),
                        old_self.slot_bytes(b_slot as int),
                    ),
                    old_self.slot_bytes(c_slot as int),
                ),
                start == dest_slot * len,
                astart == a_slot * len,
                bstart == b_slot * len,
                cstart == c_slot * len,
                start + len <= astart || astart + len <= start,
                start + len <= bstart || bstart + len <= start,
                start + len <= cstart || cstart + len <= start,
                start + len <= self.data@.len(),
                astart + len <= self.data@.len(),
                bstart + len <= self.data@.len(),
                cstart + len <= self.data@.len(),
                start + len <= usize::MAX,
                astart + len <= usize::MAX,
                bstart + len <= usize::MAX,
                cstart + len <= usize::MAX,
                self.data@.len() == old_self.data@.len(),
                0 <= j <= len,
                forall|i: int|
                    0 <= i < old_self.data@.len() && !(start <= i < start + j) ==> #[trigger]
                    old_self.data@[i] == self.data@[i],
                forall|k: int| 0 <= k < j ==> #[trigger] self.data@[start + k] == nb[k],
            decreases len - j,
        {
            let d = self.data[start + j];
            let x = self.data[astart + j];
            let y = self.data[bstart + j];
            let z = self.data[cstart + j];
            proof {
                assert(self.data@[astart + j] == old_self.data@[astart + j]);
                assert(self.data@[bstart + j] == old_self.data@[bstart + j]);
                assert(self.data@[cstart + j] == old_self.data@[cstart + j]);
                assert(self.data@[start + j] == old_self.data@[start + j]);
                assert(old_self.slot_bytes(dest_slot as int)[j as int] == old_self.data@[start + j]);
                assert(old_self.slot_bytes(a_slot as int)[j as int] == old_self.data@[astart + j]);
                assert(old_self.slot_bytes(b_slot as int)[j as int] == old_self.data@[bstart + j]);
                assert(old_self.slot_bytes(c_slot as int)[j as int] == old_self.data@[cstart + j]);
            }
            self.data.set(start + j, d ^ x ^ y ^ z);
            j = j + 1;
        }
        proof {
            Self::lemma_after_slot_write(old_self, *self, dest_slot as int, nb);
            Self::lemma_rewrite_contents(old_self, *self, dest_slot as int, nb);
        }
    }

    /// What [`Self::xor_two_slots`] leaves in `dest`: `dest` XOR the sources in the set
    /// `{a, b}` other than `dest` (equal sources count once).
    pub open spec fn xor_two_result(&self, dest: int, a: int, b: int) -> Seq<u8> {
        let x = self.slot_bytes(dest);
        if a == b {
            xor_unless(x, self.slot_bytes(a), a, dest)
        } else {
            xor_unless(xor_unless(x, self.slot_bytes(a), a, dest), self.slot_bytes(b), b, dest)
        }
    }

    /// What [`Self::xor_three_slots`] leaves in `dest`: `dest` XOR each of `a`, `b`, `c` that
    /// is not `dest`, in turn (equal sources count as often as they are listed).
    pub open spec fn xor_three_result(&self, dest: int, a: int, b: int, c: int) -> Seq<u8> {
        xor_unless(
            xor_unless(
                xor_unless(self.slot_bytes(dest), self.slot_bytes(a), a, dest),
                self.slot_bytes(b),
                b,
                dest,
            ),
            self.slot_bytes(c),
            c,
            dest,
        )
    }

    /// A slab is a rewrite of itself with a slot's own bytes.
    proof fn lemma_rewrite_same(&self, s: int)
        requires
            self.wf(),
            0 <= s < self.spec_num_slots(),
        ensures
            self.is_slot_rewrite(self, s, self.slot_bytes(s)),
    {
        assert(self.contents() =~= self.contents_with_slot(s, self.slot_bytes(s)));
    }

    /// Two rewrites of the same slot, one after the other, are one rewrite of it.
    proof fn lemma_rewrite_trans(
        a: SlabStorage,
        b: SlabStorage,
        c: SlabStorage,
        s: int,
        x: Seq<u8>,
        y: Seq<u8>,
    )
        requires
            a.wf(),
            0 <= s < a.spec_num_slots(),
            b.is_slot_rewrite(&a, s, x),
            c.is_slot_rewrite(&b, s, y),
        ensures
            c.is_slot_rewrite(&a, s, y),
    {
        assert forall|id: usize| #[trigger] a.slots().contains_key(id) implies c.contents()[id]
            == a.contents_with_slot(s, y)[id] by {
            let t = a.slots()[id] as int;
            assert(t < a.spec_num_slots());
            if t != s {
                assert(b.slot_bytes(t) == a.slot_bytes(t));
            }
        }
        assert(c.contents() =~= a.contents_with_slot(s, y));
    }

    /// `dest ^= a ^ b`. Where slots coincide, a source equal to `dest` is skipped and equal
    /// sources are XORed once.
    pub fn xor_two_slots(&mut self, dest_slot: usize, a_slot: usize, b_slot: usize)
        requires
            old(self).wf(),
            dest_slot < old(self).spec_num_slots(),
            a_slot < old(self).spec_num_slots(),
            b_slot < old(self).spec_num_slots(),
        ensures
            final(self).extends(old(self)),
            final(self).is_slot_rewrite(
                old(self),
                dest_slot as int,
                old(self).xor_two_result(dest_slot as int, a_slot as int, b_slot as int),
            ),
    {
        if dest_slot == a_slot {
            if dest_slot == b_slot {
                proof {
                    self.lemma_rewrite_same(dest_slot as int);
                }
            } else {
                self.xor_slots(dest_slot, b_slot);
            }
        } else if dest_slot == b_slot {
            self.xor_slots(dest_slot, a_slot);
        } else if a_slot == b_slot {
            self.xor_slots(dest_slot, a_slot);
        } else {
            self.xor_two_distinct(dest_slot, a_slot, b_slot);
        }
    }

    /// `dest ^= src` unless `src` is `dest`, as one rewrite of `dest` since `start`.
    fn xor_unless_same(&mut self, dest_slot: usize, src_slot: usize, start: Ghost<SlabStorage>)
        requires
            start@.wf(),
            dest_slot < start@.spec_num_slots(),
            src_slot < start@.spec_num_slots(),
            old(self).is_slot_rewrite(&start@, dest_slot as int, old(self).slot_bytes(dest_slot as int)),
        ensures
            final(self).is_slot_rewrite(
                &start@,
                dest_slot as int,
                xor_unless(
                    old(self).slot_bytes(dest_slot as int),
                    start@.slot_bytes(src_slot as int),
                    src_slot as int,
                    dest_slot as int,
                ),
            ),
    {
        if dest_slot != src_slot {
            let ghost mid = *self;
            proof {
                assert(mid.slot_bytes(src_slot as int) == start@.slot_bytes(src_slot as int));
            }
            self.xor_slots(dest_slot, src_slot);
            proof {
                Self::lemma_rewrite_trans(
                    start@,
                    mid,
                    *self,
                    dest_slot as int,
                    mid.slot_bytes(dest_slot as int),
                    self.slot_bytes(dest_slot as int),
                );
            }
        }
    }

    /// `dest ^= a ^ b ^ c`. Where slots coincide, each source equal to `dest` is skipped and
    /// the others are XORed in turn, each as often as it is listed.
    pub fn xor_three_slots(&mut self, dest_slot: usize, a_slot: usize, b_slot: usize, c_slot: usize)
        requires
            old(self).wf(),
            dest_slot < old(self).spec_num_slots(),
            a_slot < old(self).spec_num_slots(),
            b_slot < old(self).spec_num_slots(),
            c_slot < old(self).spec_num_slots(),
        ensures
            final(self).extends(old(self)),
            final(self).is_slot_rewrite(
                old(self),
                dest_slot as int,
                old(self).xor_three_result(
                    dest_slot as int,
                    a_slot as int,
                    b_slot as int,
                    c_slot as int,
                ),
            ),
    {
        if dest_slot != a_slot && dest_slot != b_slot && dest_slot != c_slot && a_slot != b_slot
            && a_slot != c_slot && b_slot != c_slot {
            self.xor_three_distinct(dest_slot, a_slot, b_slot, c_slot);
        } else {
            let ghost start = *self;
            proof {
                self.lemma_rewrite_same(dest_slot as int);
            }
            self.xor_unless_same(dest_slot, a_slot, Ghost(start));
            self.xor_unless_same(dest_slot, b_slot, Ghost(start));
            self.xor_unless_same(dest_slot, c_slot, Ghost(start));
        }
    }

    /// `new` is `old` with the bytes of slot `s` replaced by `mid`.
    proof fn lemma_spliced(old: SlabStorage, new: SlabStorage, s: int, mid: Seq<u8>)
        requires
            old.wf(),
            new.data_id_to_slot@ == old.data_id_to_slot@,
            new.num_slots == old.num_slots,
            new.vector_len == old.vector_len,
            0 <= s < old.num_slots,
            mid.len() == old.vector_len,
            new.data@ == old.data@.subrange(0, s * old.vector_len) + mid + old.data@.subrange(
                s * old.vector_len + old.vector_len,
                old.data@.len() as int,
            ),
        ensures
            new.is_slot_rewrite(&old, s, mid),
    {
        let len = old.vector_len as int;
        lemma_slot_in_range(s, old.num_slots as int, len);
        assert forall|i: int|
            0 <= i < old.data@.len() && !(s * len <= i < s * len + len) implies #[trigger] old.data@[i]
            == new.data@[i] by {
            if i < s * len {
            } else {
                assert(new.data@[i] == old.data@[i]);
            }
        }
        assert forall|j: int| 0 <= j < len implies #[trigger] new.data@[s * old.vector_len + j] == mid[j] by {
        }
        Self::lemma_after_slot_write(old, new, s, mid);
        Self::lemma_rewrite_contents(old, new, s, mid);
    }

    proof fn lemma_spliced_all(old: SlabStorage, s: int)
        requires
            old.wf(),
            0 <= s < old.num_slots,
        ensures
            forall|new: SlabStorage, mid: Seq<u8>|
                #![trigger new.is_slot_rewrite(&old, s, mid)]
                new.data_id_to_slot@ == old.data_id_to_slot@ && new.num_slots == old.num_slots
                    && new.vector_len == old.vector_len && mid.len() == old.vector_len
                    && new.data@ == old.data@.subrange(0, s * old.vector_len) + mid
                    + old.data@.subrange(s * old.vector_len + old.vector_len, old.data@.len() as int)
                    ==> new.is_slot_rewrite(&old, s, mid),
    {
        assert forall|new: SlabStorage, mid: Seq<u8>|
            new.data_id_to_slot@ == old.data_id_to_slot@ && new.num_slots == old.num_slots
                && new.vector_len == old.vector_len && mid.len() == old.vector_len
                && new.data@ == old.data@.subrange(0, s * old.vector_len) + mid
                + old.data@.subrange(s * old.vector_len + old.vector_len, old.data@.len() as int)
                implies #[trigger] new.is_slot_rewrite(&old, s, mid) by {
            Self::lemma_spliced(old, new, s, mid);
        }
    }

    /// Mutable access to the bytes of one slot.
    ///
    /// Once the borrow ends, the slab holds the slice's final bytes in that slot and is
    /// otherwise unchanged.
    pub fn slot_slice_mut(&mut self, slot: usize) -> (r: &mut [u8])
        requires
            old(self).wf(),
            slot < old(self).spec_num_slots(),
        ensures
            r@ == old(self).slot_bytes(slot as int),
            final(r)@.len() == old(self).spec_vector_len() ==> final(self).is_slot_rewrite(
                old(self),
                slot as int,
                final(r)@,
            ),
    {
        let len = self.vector_len;
        proof {
            self.lemma_wf_facts();
            lemma_slot_in_range(slot as int, self.num_slots as int, len as int);
        }
        let start = slot * len;
        let ghost old_self = *self;
        proof {
            Self::lemma_spliced_all(old_self, slot as int);
        }
        let mid = vec_range_mut(&mut self.data, start, start + len);
        mid
    }

    /// Mutable bytes of `dest_slot` together with the shared bytes of a different `src_slot`.
    pub fn get_pair_mut(&mut self, dest_slot: usize, src_slot: usize) -> (r: (&mut [u8], &[u8]))
        requires
            old(self).wf(),
            dest_slot != src_slot,
            dest_slot < old(self).spec_num_slots(),
            src_slot < old(self).spec_num_slots(),
        ensures
            r.0@ == old(self).slot_bytes(dest_slot as int),
            r.1@ == old(self).slot_bytes(src_slot as int),
            final(r.0)@.len() == old(self).spec_vector_len() ==> final(self).is_slot_rewrite(
                old(self),
                dest_slot as int,
                final(r.0)@,
            ),
    {
        let len = self.vector_len;
        proof {
            self.lemma_wf_facts();
            Self::lemma_slots_disjoint(dest_slot as int, src_slot as int, self.num_slots as int, len as int);
            Self::lemma_slots_disjoint(src_slot as int, dest_slot as int, self.num_slots as int, len as int);
            Self::lemma_spliced_all(*self, dest_slot as int);
        }
        let dest_start = dest_slot * len;
        let src_start = src_slot * len;
        vec_pair_mut(&mut self.data, dest_start, src_start, len)
    }

    /// Rewriting the slot of `owner` changes exactly the vector stored under `owner`.
    pub proof fn lemma_rewrite_is_insert(&self, owner: usize, b: Seq<u8>)
        requires
            self.wf(),
            self.slots().contains_key(owner),
        ensures
            self.contents_with_slot(self.slots()[owner] as int, b) == self.contents().insert(
                owner,
                b,
            ),
    {
        self.lemma_single_owner(owner, self.slots()[owner] as int);
        assert(self.contents_with_slot(self.slots()[owner] as int, b) =~= self.contents().insert(
            owner,
            b,
        ));
    }

    /// Every stored vector is `vector_len` bytes long.
    pub proof fn lemma_contents_len(&self, id: usize)
        requires
            self.wf(),
            self.contents().contains_key(id),
        ensures
            self.contents()[id].len() == self.spec_vector_len(),
            self.slots()[id] < self.spec_num_slots(),
    {
        lemma_slot_in_range(
            self.slots()[id] as int,
            self.num_slots as int,
            self.vector_len as int,
        );
    }

    /// Room for `want` more slots remains while at most `used` of a budget `cap` (counted from
    /// `base` slots) are taken and `used + want` stays within the budget.
    pub proof fn lemma_room_left(&self, base: nat, used: nat, want: nat, cap: nat)
        requires
            self.spec_num_slots() <= base + used,
            used + want <= cap,
            base + cap <= usize::MAX,
            (base + cap) * self.spec_vector_len() <= isize::MAX,
        ensures
            self.can_grow(want),
    {
        let n = self.spec_num_slots();
        let len = self.spec_vector_len();
        assert((n + want) * len <= (base + cap) * len) by (nonlinear_arith)
            requires
                n <= base + used,
                used + want <= cap,
        ;
    }
}

} // verus!
