//! The table of distinguished points: a bounded, deduplicating store that
//! gives up its least probable entry when it is full.

use vstd::prelude::*;
use crate::binary32::Binary32;
use crate::words::{digest_le_bytes, words_le_bytes};

verus! {

/// A candidate result kept for later analysis. Its identity is `value`.
#[derive(Clone, Copy, Debug)]
pub struct DistinguishedPoint {
    pub value: [u8; 32],
    pub seed: u64,
    pub steps: u64,
    pub probability: Binary32,
}

/// A distinguished point on its way to resubmission.
#[derive(Clone, Copy, Debug)]
pub struct CandidateDP {
    pub value: [u8; 32],
    pub seed: u64,
    pub steps: u64,
    pub probability: Binary32,
}

/// The number of zero bits in front of the first one bit of a byte; eight
/// for the zero byte.
pub open spec fn byte_leading_zeros(b: u8) -> nat {
    if b >= 0x80 {
        0
    } else if b >= 0x40 {
        1
    } else if b >= 0x20 {
        2
    } else if b >= 0x10 {
        3
    } else if b >= 0x08 {
        4
    } else if b >= 0x04 {
        5
    } else if b >= 0x02 {
        6
    } else if b >= 0x01 {
        7
    } else {
        8
    }
}

/// The number of zero bits in front of the first one bit of a byte string,
/// the first byte and in it the most significant bit coming first; the
/// number of all its bits where it has no one bit.
pub open spec fn leading_zero_bits(value: Seq<u8>) -> nat
    decreases value.len(),
{
    if value.len() == 0 {
        0
    } else if value[0] == 0 {
        8 + leading_zero_bits(value.drop_first())
    } else {
        byte_leading_zeros(value[0])
    }
}

fn zeros_of_byte(b: u8) -> (n: usize)
    ensures
        n == byte_leading_zeros(b),
{
    if b >= 0x80 {
        0
    } else if b >= 0x40 {
        1
    } else if b >= 0x20 {
        2
    } else if b >= 0x10 {
        3
    } else if b >= 0x08 {
        4
    } else if b >= 0x04 {
        5
    } else if b >= 0x02 {
        6
    } else if b >= 0x01 {
        7
    } else {
        8
    }
}

/// Counts the leading zero bits of a value.
pub fn count_leading_zero_bits(value: &[u8; 32]) -> (count: usize)
    ensures
        count == leading_zero_bits(value@),
        count <= 256,
{
    let mut i: usize = 0;
    assert(value@.skip(0) =~= value@);
    while i < 32
        invariant
            i <= 32,
            leading_zero_bits(value@) == 8 * i + leading_zero_bits(value@.skip(i as int)),
        decreases 32 - i,
    {
        let ghost rest = value@.skip(i as int);
        assert(rest[0] == value@[i as int]);
        assert(rest.drop_first() =~= value@.skip(i + 1));
        if value[i] != 0 {
            return 8 * i + zeros_of_byte(value[i]);
        }
        i += 1;
    }
    assert(value@.skip(32).len() == 0);
    8 * i
}

impl DistinguishedPoint {
    /// Whether the value has `dp_bits` leading zero bits or more.
    pub fn is_distinguished(&self, dp_bits: usize) -> (r: bool)
        ensures
            r == (leading_zero_bits(self.value@) >= dp_bits),
    {
        count_leading_zero_bits(&self.value) >= dp_bits
    }
}

/// Whether some entry has this value.
pub open spec fn holds_value(entries: Seq<DistinguishedPoint>, value: Seq<u8>) -> bool {
    exists|i: int| 0 <= i < entries.len() && (#[trigger] entries[i]).value@ == value
}

/// No value occurs twice.
pub open spec fn distinct_values(entries: Seq<DistinguishedPoint>) -> bool {
    forall|i: int, j: int|
        0 <= i < j < entries.len() ==> (#[trigger] entries[i]).value@ != (
        #[trigger] entries[j]).value@
}

/// Every probability is a number.
pub open spec fn all_numbers(entries: Seq<DistinguishedPoint>) -> bool {
    forall|i: int| 0 <= i < entries.len() ==> !(#[trigger] entries[i]).probability.nan()
}

/// `i` is the place of the least probable entry; among several equally
/// improbable ones, of the one that was stored first.
pub open spec fn is_first_lowest(entries: Seq<DistinguishedPoint>, i: int) -> bool {
    &&& 0 <= i < entries.len()
    &&& forall|j: int|
        0 <= j < entries.len() ==> entries[i].probability.key() <= (
        #[trigger] entries[j]).probability.key()
    &&& forall|j: int|
        0 <= j < i ==> entries[i].probability.key() < (#[trigger] entries[j]).probability.key()
}

/// The place that `is_first_lowest` describes; meaningful on a table that is
/// not empty.
pub open spec fn first_lowest(entries: Seq<DistinguishedPoint>) -> int {
    choose|i: int| is_first_lowest(entries, i)
}

/// What a table holds after `dp` was offered to it: nothing new if the
/// value is already there; otherwise `dp` at the end, after the least
/// probable entry made room if the table was full.
pub open spec fn after_insert(
    entries: Seq<DistinguishedPoint>,
    capacity: nat,
    dp: DistinguishedPoint,
) -> Seq<DistinguishedPoint> {
    if holds_value(entries, dp.value@) {
        entries
    } else if entries.len() >= capacity && entries.len() > 0 {
        entries.remove(first_lowest(entries)).push(dp)
    } else {
        entries.push(dp)
    }
}

/// The most entries a table of this capacity ever holds: a table made with
/// capacity zero still keeps the latest entry.
pub open spec fn size_bound(capacity: nat) -> nat {
    if capacity == 0 {
        1
    } else {
        capacity
    }
}

/// At most one place is the first lowest.
pub proof fn lemma_first_lowest_unique(entries: Seq<DistinguishedPoint>, i: int, j: int)
    requires
        is_first_lowest(entries, i),
        is_first_lowest(entries, j),
    ensures
        i == j,
{
    if i < j {
        assert(entries[j].probability.key() < entries[i].probability.key());
        assert(entries[i].probability.key() <= entries[j].probability.key());
    } else if j < i {
        assert(entries[i].probability.key() < entries[j].probability.key());
        assert(entries[j].probability.key() <= entries[i].probability.key());
    }
}

/// A table that is not empty has a first lowest entry.
pub proof fn lemma_first_lowest_exists(entries: Seq<DistinguishedPoint>)
    requires
        entries.len() > 0,
    ensures
        is_first_lowest(entries, first_lowest(entries)),
    decreases entries.len(),
{
    if entries.len() == 1 {
        assert(is_first_lowest(entries, 0));
    } else {
        let front = entries.drop_last();
        lemma_first_lowest_exists(front);
        let k = first_lowest(front);
        let last = entries.len() - 1;
        assert forall|j: int| 0 <= j < front.len() implies front[j] == entries[j] by {}
        if entries[last].probability.key() < entries[k].probability.key() {
            assert forall|j: int| 0 <= j < entries.len() implies entries[last].probability.key()
                <= (#[trigger] entries[j]).probability.key() by {
                if j < last {
                    assert(front[k].probability.key() <= front[j].probability.key());
                }
            }
            assert forall|j: int| 0 <= j < last implies entries[last].probability.key() < (
            #[trigger] entries[j]).probability.key() by {
                assert(front[k].probability.key() <= front[j].probability.key());
            }
            assert(is_first_lowest(entries, last));
        } else {
            assert forall|j: int| 0 <= j < entries.len() implies entries[k].probability.key()
                <= (#[trigger] entries[j]).probability.key() by {
                if j < last {
                    assert(front[k].probability.key() <= front[j].probability.key());
                }
            }
            assert forall|j: int| 0 <= j < k implies entries[k].probability.key() < (
            #[trigger] entries[j]).probability.key() by {
                assert(front[k].probability.key() < front[j].probability.key());
            }
            assert(is_first_lowest(entries, k));
        }
    }
}

/// Whether `dp` is the point that a digest of at least eight words and a
/// probability give: the value is the first eight words, each least
/// significant byte first; seed and step count are zero.
pub open spec fn is_digest_point(
    dp: DistinguishedPoint,
    words: Seq<u32>,
    probability: Binary32,
) -> bool {
    &&& dp.value@ == words_le_bytes(words.subrange(0, 8))
    &&& dp.seed == 0
    &&& dp.steps == 0
    &&& dp.probability == probability
}

/// The point that `is_digest_point` describes.
pub open spec fn digest_point(words: Seq<u32>, probability: Binary32) -> DistinguishedPoint {
    choose|dp: DistinguishedPoint| is_digest_point(dp, words, probability)
}

/// Only one point is the point of a digest.
pub proof fn lemma_digest_point_unique(
    dp: DistinguishedPoint,
    words: Seq<u32>,
    probability: Binary32,
)
    requires
        is_digest_point(dp, words, probability),
    ensures
        dp == digest_point(words, probability),
{
    let other = digest_point(words, probability);
    assert(is_digest_point(other, words, probability));
    assert(dp.value@ =~= other.value@);
    assert(dp.value =~= other.value);
}

/// Whether two values are the same 32 bytes.
pub fn same_value(a: &[u8; 32], b: &[u8; 32]) -> (r: bool)
    ensures
        r == (a@ == b@),
{
    let mut i: usize = 0;
    while i < 32
        invariant
            i <= 32,
            forall|k: int| 0 <= k < i ==> a@[k] == b@[k],
        decreases 32 - i,
    {
        if a[i] != b[i] {
            return false;
        }
        i += 1;
    }
    assert(a@ =~= b@);
    true
}

/// A bounded store of distinguished points with at most one entry per value.
/// Entries stand in the order in which they were stored.
pub struct DPTable {
    table: Vec<DistinguishedPoint>,
    max_entries: usize,
}

impl View for DPTable {
    type V = Seq<DistinguishedPoint>;

    closed spec fn view(&self) -> Seq<DistinguishedPoint> {
        self.table@
    }
}

impl DPTable {
    /// The capacity that the table was made with.
    pub closed spec fn capacity(&self) -> nat {
        self.max_entries as nat
    }

    /// The table's invariant: no value occurs twice, every probability is a
    /// number, and the table is no larger than its bound.
    pub open spec fn wf(&self) -> bool {
        &&& distinct_values(self@)
        &&& all_numbers(self@)
        &&& self@.len() <= size_bound(self.capacity())
    }

    /// An empty table that evicts once it holds `max_entries` entries.
    pub fn new(max_entries: usize) -> (t: DPTable)
        ensures
            t.wf(),
            t@ == Seq::<DistinguishedPoint>::empty(),
            t.capacity() == max_entries,
    {
        DPTable { table: Vec::new(), max_entries }
    }

    /// The number of entries.
    pub fn len(&self) -> (n: usize)
        ensures
            n == self@.len(),
    {
        self.table.len()
    }

    /// The configured capacity.
    pub fn max_entries(&self) -> (n: usize)
        ensures
            n == self.capacity(),
    {
        self.max_entries
    }

    /// Whether an entry with this value is stored.
    pub fn contains(&self, value: &[u8; 32]) -> (r: bool)
        ensures
            r == holds_value(self@, value@),
    {
        let mut i: usize = 0;
        while i < self.table.len()
            invariant
                i <= self.table@.len(),
                forall|k: int| 0 <= k < i ==> (#[trigger] self.table@[k]).value@ != value@,
            decreases self.table@.len() - i,
        {
            if same_value(&self.table[i].value, value) {
                return true;
            }
            i += 1;
        }
        false
    }

    /// The stored entry with this value, if there is one: the first such
    /// entry, which in a table that is well formed is the only one.
    pub fn get(&self, value: &[u8; 32]) -> (r: Option<DistinguishedPoint>)
        ensures
            r is Some <==> holds_value(self@, value@),
            r is Some ==> exists|i: int|
                0 <= i < self@.len() && r->Some_0 == #[trigger] self@[i] && self@[i].value@
                    == value@ && forall|k: int|
                    0 <= k < i ==> (#[trigger] self@[k]).value@ != value@,
    {
        let mut i: usize = 0;
        while i < self.table.len()
            invariant
                i <= self.table@.len(),
                forall|k: int| 0 <= k < i ==> (#[trigger] self.table@[k]).value@ != value@,
            decreases self.table@.len() - i,
        {
            if same_value(&self.table[i].value, value) {
                let found = self.table[i];
                assert(found == self@[i as int] && self@[i as int].value@ == value@);
                return Some(found);
            }
            i += 1;
        }
        None
    }

    /// Offers the point of a digest: its value is the first eight words of
    /// `slice`, each least significant byte first.
    pub fn update_from_digest(&mut self, slice: &[u32], probability: Binary32) -> (duplicate: bool)
        requires
            old(self).wf(),
            slice@.len() >= 8,
            !probability.nan(),
        ensures
            final(self).wf(),
            is_digest_point(digest_point(slice@, probability), slice@, probability),
            duplicate == holds_value(old(self)@, words_le_bytes(slice@.subrange(0, 8))),
            final(self)@ == after_insert(
                old(self)@,
                old(self).capacity(),
                digest_point(slice@, probability),
            ),
            final(self).capacity() == old(self).capacity(),
    {
        let value = digest_le_bytes(slice);
        let dp = DistinguishedPoint { value, seed: 0, steps: 0, probability };
        proof {
            lemma_digest_point_unique(dp, slice@, probability);
        }
        self.insert_and_check(dp)
    }

    fn lowest(&self) -> (at: usize)
        requires
            self@.len() > 0,
        ensures
            is_first_lowest(self@, at as int),
            at as int == first_lowest(self@),
    {
        let mut at: usize = 0;
        let mut i: usize = 1;
        while i < self.table.len()
            invariant
                1 <= i <= self.table@.len(),
                is_first_lowest(self.table@.subrange(0, i as int), at as int),
            decreases self.table@.len() - i,
        {
            let ghost before = self.table@.subrange(0, i as int);
            let ghost now = self.table@.subrange(0, i + 1);
            if self.table[i].probability.order_key() < self.table[at].probability.order_key() {
                proof {
                    assert forall|j: int| 0 <= j < now.len() implies now[i as int].probability.key()
                        <= (#[trigger] now[j]).probability.key() by {
                        if j < i {
                            assert(before[at as int].probability.key()
                                <= before[j].probability.key());
                        }
                    }
                    assert forall|j: int| 0 <= j < i implies now[i as int].probability.key() < (
                    #[trigger] now[j]).probability.key() by {
                        assert(before[at as int].probability.key() <= before[j].probability.key());
                    }
                }
                at = i;
            } else {
                proof {
                    assert forall|j: int| 0 <= j < now.len() implies now[at as int].probability.key()
                        <= (#[trigger] now[j]).probability.key() by {
                        if j < i {
                            assert(before[at as int].probability.key()
                                <= before[j].probability.key());
                        }
                    }
                    assert forall|j: int| 0 <= j < at implies now[at as int].probability.key() < (
                    #[trigger] now[j]).probability.key() by {
                        assert(before[at as int].probability.key() < before[j].probability.key());
                    }
                }
            }
            i += 1;
        }
        proof {
            assert(self.table@.subrange(0, i as int) =~= self.table@);
            lemma_first_lowest_exists(self@);
            lemma_first_lowest_unique(self@, at as int, first_lowest(self@));
        }
        at
    }

    /// Offers `dp` to the table and reports whether its value was already
    /// there. A duplicate changes nothing. A new value is stored at the end;
    /// if the table was full, its least probable entry leaves first.
    pub fn insert_and_check(&mut self, dp: DistinguishedPoint) -> (duplicate: bool)
        requires
            old(self).wf(),
            !dp.probability.nan(),
        ensures
            final(self).wf(),
            duplicate == holds_value(old(self)@, dp.value@),
            final(self)@ == after_insert(old(self)@, old(self).capacity(), dp),
            final(self).capacity() == old(self).capacity(),
    {
        proof {
            lemma_insert_keeps_shape(old(self)@, old(self).capacity(), dp);
        }
        if self.contains(&dp.value) {
            true
        } else {
            if self.table.len() >= self.max_entries && self.table.len() > 0 {
                let at = self.lowest();
                self.table.remove(at);
            }
            self.table.push(dp);
            false
        }
    }
}

/// Offering a point to a table of distinct numbers leaves a table of
/// distinct numbers, and one that is no larger than its bound.
pub proof fn lemma_insert_keeps_shape(
    entries: Seq<DistinguishedPoint>,
    capacity: nat,
    dp: DistinguishedPoint,
)
    requires
        distinct_values(entries),
        all_numbers(entries),
        entries.len() <= size_bound(capacity),
        !dp.probability.nan(),
    ensures
        distinct_values(after_insert(entries, capacity, dp)),
        all_numbers(after_insert(entries, capacity, dp)),
        after_insert(entries, capacity, dp).len() <= size_bound(capacity),
        holds_value(after_insert(entries, capacity, dp), dp.value@),
{
    let after = after_insert(entries, capacity, dp);
    if holds_value(entries, dp.value@) {
    } else {
        let kept = if entries.len() >= capacity && entries.len() > 0 {
            lemma_first_lowest_exists(entries);
            entries.remove(first_lowest(entries))
        } else {
            entries
        };
        assert(after == kept.push(dp));
        assert forall|i: int| 0 <= i < kept.len() implies (exists|k: int|
            0 <= k < entries.len() && entries[k] == #[trigger] kept[i]) by {
            if entries.len() >= capacity && entries.len() > 0 {
                let at = first_lowest(entries);
                if i < at {
                    assert(entries[i] == kept[i]);
                } else {
                    assert(entries[i + 1] == kept[i]);
                }
            } else {
                assert(entries[i] == kept[i]);
            }
        }
        assert forall|i: int, j: int| 0 <= i < j < kept.len() implies (#[trigger] kept[i]).value@
            != (#[trigger] kept[j]).value@ by {
            if entries.len() >= capacity && entries.len() > 0 {
                let at = first_lowest(entries);
                let a = if i < at { i } else { i + 1 };
                let b = if j < at { j } else { j + 1 };
                assert(kept[i] == entries[a]);
                assert(kept[j] == entries[b]);
            }
        }
        assert forall|i: int, j: int| 0 <= i < j < after.len() implies (#[trigger] after[i]).value@
            != (#[trigger] after[j]).value@ by {
            if j < kept.len() {
                assert(after[i] == kept[i]);
                assert(after[j] == kept[j]);
            } else {
                assert(after[i] == kept[i]);
                let k = choose|k: int| 0 <= k < entries.len() && entries[k] == kept[i];
                assert(entries[k].value@ != dp.value@);
            }
        }
        assert forall|i: int| 0 <= i < after.len() implies !(#[trigger] after[i]).probability.nan() by {
            if i < kept.len() {
                assert(after[i] == kept[i]);
                let k = choose|k: int| 0 <= k < entries.len() && entries[k] == kept[i];
                assert(!entries[k].probability.nan());
            }
        }
        assert(after[kept.len() as int].value@ == dp.value@);
    }
}

impl Default for DPTable {
    /// The table with capacity zero, which keeps only the latest entry.
    fn default() -> (t: DPTable)
        ensures
            t.wf(),
            t@ == Seq::<DistinguishedPoint>::empty(),
            t.capacity() == 0,
    {
        DPTable::new(0)
    }
}

/// What a table holds after a run of points was offered to it, one after
/// the other.
pub open spec fn after_all(
    entries: Seq<DistinguishedPoint>,
    capacity: nat,
    offered: Seq<DistinguishedPoint>,
) -> Seq<DistinguishedPoint>
    decreases offered.len(),
{
    if offered.len() == 0 {
        entries
    } else {
        after_insert(after_all(entries, capacity, offered.drop_last()), capacity, offered.last())
    }
}

/// Whatever is offered to an empty table of capacity one or more, in
/// whatever order, the table never holds more than its capacity, never holds
/// a value twice, and holds numbers only.
pub proof fn lemma_never_exceeds_capacity(capacity: nat, offered: Seq<DistinguishedPoint>)
    requires
        capacity >= 1,
        all_numbers(offered),
    ensures
        after_all(Seq::empty(), capacity, offered).len() <= capacity,
        distinct_values(after_all(Seq::empty(), capacity, offered)),
        all_numbers(after_all(Seq::empty(), capacity, offered)),
    decreases offered.len(),
{
    if offered.len() > 0 {
        let front = offered.drop_last();
        assert forall|i: int| 0 <= i < front.len() implies !(#[trigger] front[i]).probability.nan() by {
            assert(front[i] == offered[i]);
        }
        lemma_never_exceeds_capacity(capacity, front);
        lemma_insert_keeps_shape(
            after_all(Seq::empty(), capacity, front),
            capacity,
            offered.last(),
        );
    }
}

/// A new value offered to a full table takes the place of exactly one
/// entry, the first of the least probable: every other entry stays, in its
/// order, and the new point stands last.
pub proof fn lemma_full_table_evicts_lowest(
    entries: Seq<DistinguishedPoint>,
    capacity: nat,
    dp: DistinguishedPoint,
)
    requires
        entries.len() > 0,
        entries.len() >= capacity,
        !holds_value(entries, dp.value@),
    ensures
        is_first_lowest(entries, first_lowest(entries)),
        after_insert(entries, capacity, dp) == entries.remove(first_lowest(entries)).push(dp),
        after_insert(entries, capacity, dp).len() == entries.len(),
        forall|i: int|
            0 <= i < first_lowest(entries) ==> after_insert(entries, capacity, dp)[i] == entries[i],
        forall|i: int|
            first_lowest(entries) < i < entries.len() ==> after_insert(entries, capacity, dp)[i - 1]
                == entries[i],
        after_insert(entries, capacity, dp).last() == dp,
{
    lemma_first_lowest_exists(entries);
}

/// A value offered a second time is reported as a duplicate and changes
/// nothing: not the size, not the stored entry, not its probability,
/// whatever probability the second offer carries.
pub proof fn lemma_reinsert_is_duplicate(
    entries: Seq<DistinguishedPoint>,
    capacity: nat,
    first: DistinguishedPoint,
    again: DistinguishedPoint,
)
    requires
        distinct_values(entries),
        all_numbers(entries),
        entries.len() <= size_bound(capacity),
        !first.probability.nan(),
        again.value@ == first.value@,
    ensures
        holds_value(after_insert(entries, capacity, first), again.value@),
        after_insert(after_insert(entries, capacity, first), capacity, again) == after_insert(
            entries,
            capacity,
            first,
        ),
{
    lemma_insert_keeps_shape(entries, capacity, first);
}

} // verus!
