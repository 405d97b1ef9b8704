//! Ranking of candidates: a bounded queue per lane that stays sorted by
//! falling probability, and the global order over all lanes.

use vstd::prelude::*;
use crate::binary32::Binary32;
use crate::dp_table::CandidateDP;

verus! {

/// Places that every lane's queue has, whatever its entropy.
pub const BASE_TOP_N: usize = 2;

/// A candidate with the lane that produced it and the probability by which
/// it is ranked.
#[derive(Clone, Copy, Debug)]
pub struct HeapEntry {
    pub probability: Binary32,
    pub lane: usize,
    pub dp: CandidateDP,
}

/// Probabilities never rise along the sequence.
pub open spec fn sorted_desc(s: Seq<HeapEntry>) -> bool {
    forall|i: int, j: int|
        0 <= i < j < s.len() ==> (#[trigger] s[i]).probability.key() >= (
        #[trigger] s[j]).probability.key()
}

/// The number of leading entries whose key is at least `key`: the place
/// where an entry with this key goes, behind every entry that is as
/// probable as itself.
pub open spec fn slot_for(s: Seq<HeapEntry>, key: int) -> int
    decreases s.len(),
{
    if s.len() == 0 || s[0].probability.key() < key {
        0
    } else {
        1 + slot_for(s.drop_first(), key)
    }
}

/// The sequence with `e` put in at its slot.
pub open spec fn placed(s: Seq<HeapEntry>, e: HeapEntry) -> Seq<HeapEntry> {
    s.insert(slot_for(s, e.probability.key()), e)
}

/// The entries in the order of falling probability; entries of equal
/// probability keep the order in which they came.
pub open spec fn ranked(s: Seq<HeapEntry>) -> Seq<HeapEntry>
    decreases s.len(),
{
    if s.len() == 0 {
        s
    } else {
        placed(ranked(s.drop_last()), s.last())
    }
}

/// What a queue of this capacity holds after `e` was offered to it.
pub open spec fn after_offer(s: Seq<HeapEntry>, capacity: nat, e: HeapEntry) -> Seq<HeapEntry> {
    if placed(s, e).len() <= capacity {
        placed(s, e)
    } else {
        placed(s, e).take(capacity as int)
    }
}

/// Where the slot lies: every entry before it has at least the key, and
/// the entry at it, if there is one, has less.
pub proof fn lemma_slot_for(s: Seq<HeapEntry>, key: int)
    ensures
        0 <= slot_for(s, key) <= s.len(),
        forall|j: int| 0 <= j < slot_for(s, key) ==> (#[trigger] s[j]).probability.key() >= key,
        slot_for(s, key) < s.len() ==> s[slot_for(s, key)].probability.key() < key,
    decreases s.len(),
{
    if s.len() == 0 || s[0].probability.key() < key {
    } else {
        let rest = s.drop_first();
        lemma_slot_for(rest, key);
        assert forall|j: int| 0 <= j < slot_for(s, key) implies (#[trigger] s[j]).probability.key()
            >= key by {
            if j > 0 {
                assert(s[j] == rest[j - 1]);
            }
        }
        if slot_for(s, key) < s.len() {
            assert(s[slot_for(s, key)] == rest[slot_for(rest, key)]);
        }
    }
}

/// The slot is the only place with the property of `lemma_slot_for`.
pub proof fn lemma_slot_is(s: Seq<HeapEntry>, key: int, at: int)
    requires
        0 <= at <= s.len(),
        forall|j: int| 0 <= j < at ==> (#[trigger] s[j]).probability.key() >= key,
        at < s.len() ==> s[at].probability.key() < key,
    ensures
        slot_for(s, key) == at,
{
    lemma_slot_for(s, key);
    let slot = slot_for(s, key);
    if slot < at {
        assert(s[slot].probability.key() >= key);
    } else if at < slot {
        assert(s[at].probability.key() >= key);
    }
}

/// Putting an entry in at its slot keeps a sorted sequence sorted.
pub proof fn lemma_placed_sorted(s: Seq<HeapEntry>, e: HeapEntry)
    requires
        sorted_desc(s),
    ensures
        sorted_desc(placed(s, e)),
        placed(s, e).len() == s.len() + 1,
{
    let key = e.probability.key();
    let slot = slot_for(s, key);
    lemma_slot_for(s, key);
    let t = placed(s, e);
    assert forall|i: int, j: int| 0 <= i < j < t.len() implies (#[trigger] t[i]).probability.key()
        >= (#[trigger] t[j]).probability.key() by {
        if j < slot {
            assert(t[i] == s[i] && t[j] == s[j]);
        } else if j == slot {
            assert(t[i] == s[i]);
        } else if i < slot {
            assert(t[i] == s[i] && t[j] == s[j - 1]);
        } else if i == slot {
            assert(t[j] == s[j - 1]);
            assert(s[slot].probability.key() < key);
            if j - 1 > slot {
                assert(s[slot].probability.key() >= s[j - 1].probability.key());
            }
        } else {
            assert(t[i] == s[i - 1] && t[j] == s[j - 1]);
        }
    }
}

/// Putting an entry in adds that entry and nothing else.
pub proof fn lemma_placed_permutes(s: Seq<HeapEntry>, e: HeapEntry)
    ensures
        placed(s, e).to_multiset() == s.to_multiset().insert(e),
{
    let slot = slot_for(s, e.probability.key());
    lemma_slot_for(s, e.probability.key());
    let t = placed(s, e);
    assert(t.remove(slot) =~= s);
    vstd::seq_lib::to_multiset_remove(t, slot);
    assert(t[slot] == e);
    t.to_multiset_ensures();
    assert(t.contains(e));
    assert(t.to_multiset() =~= s.to_multiset().insert(e));
}

/// The ranked sequence is sorted.
pub proof fn lemma_ranked_sorted(s: Seq<HeapEntry>)
    ensures
        sorted_desc(ranked(s)),
        ranked(s).len() == s.len(),
    decreases s.len(),
{
    if s.len() > 0 {
        lemma_ranked_sorted(s.drop_last());
        lemma_placed_sorted(ranked(s.drop_last()), s.last());
    }
}

/// Ranking loses no entry and adds none.
pub proof fn lemma_ranked_permutes(s: Seq<HeapEntry>)
    ensures
        ranked(s).to_multiset() == s.to_multiset(),
    decreases s.len(),
{
    if s.len() > 0 {
        lemma_ranked_permutes(s.drop_last());
        lemma_placed_permutes(ranked(s.drop_last()), s.last());
        vstd::seq_lib::to_multiset_build(s.drop_last(), s.last());
        assert(s.drop_last().push(s.last()) =~= s);
    }
}

/// After any offer a sorted queue within its capacity is again sorted and
/// within its capacity.
pub proof fn lemma_offer_keeps_queue(s: Seq<HeapEntry>, capacity: nat, e: HeapEntry)
    requires
        sorted_desc(s),
        s.len() <= capacity,
    ensures
        sorted_desc(after_offer(s, capacity, e)),
        after_offer(s, capacity, e).len() <= capacity,
        after_offer(s, capacity, e).len() == if s.len() < capacity {
            s.len() + 1
        } else {
            s.len()
        },
{
    lemma_placed_sorted(s, e);
    let t = placed(s, e);
    let a = after_offer(s, capacity, e);
    assert forall|i: int, j: int| 0 <= i < j < a.len() implies (#[trigger] a[i]).probability.key()
        >= (#[trigger] a[j]).probability.key() by {
        assert(a[i] == t[i] && a[j] == t[j]);
    }
}

/// What a queue of this capacity holds after a run of entries was offered
/// to it, one after the other.
pub open spec fn after_offers(s: Seq<HeapEntry>, capacity: nat, offered: Seq<HeapEntry>) -> Seq<
    HeapEntry,
>
    decreases offered.len(),
{
    if offered.len() == 0 {
        s
    } else {
        after_offer(after_offers(s, capacity, offered.drop_last()), capacity, offered.last())
    }
}

/// Whatever is offered to an empty queue, in whatever order, the queue is
/// sorted by falling probability and holds no more than its capacity after
/// every offer.
pub proof fn lemma_queue_always_sorted_and_bounded(capacity: nat, offered: Seq<HeapEntry>)
    ensures
        sorted_desc(after_offers(Seq::empty(), capacity, offered)),
        after_offers(Seq::empty(), capacity, offered).len() <= capacity,
    decreases offered.len(),
{
    if offered.len() > 0 {
        lemma_queue_always_sorted_and_bounded(capacity, offered.drop_last());
        lemma_offer_keeps_queue(
            after_offers(Seq::empty(), capacity, offered.drop_last()),
            capacity,
            offered.last(),
        );
    }
}

/// A lane's bounded queue of its most probable candidates, most probable
/// first.
pub struct CandidateQueue {
    entries: Vec<HeapEntry>,
    limit: usize,
}

impl View for CandidateQueue {
    type V = Seq<HeapEntry>;

    closed spec fn view(&self) -> Seq<HeapEntry> {
        self.entries@
    }
}

impl CandidateQueue {
    /// The most entries that the queue keeps.
    pub closed spec fn capacity(&self) -> nat {
        self.limit as nat
    }

    /// The queue's invariant: sorted by falling probability and within its
    /// capacity.
    pub open spec fn wf(&self) -> bool {
        &&& sorted_desc(self@)
        &&& self@.len() <= self.capacity()
    }

    /// An empty queue that keeps `capacity` entries.
    pub fn new(capacity: usize) -> (q: CandidateQueue)
        ensures
            q.wf(),
            q@ == Seq::<HeapEntry>::empty(),
            q.capacity() == capacity,
    {
        CandidateQueue { entries: Vec::new(), limit: capacity }
    }

    /// An empty queue for a lane: the base places and `bonus` more, where
    /// `bonus` is ten times the lane's entropy, rounded down.
    pub fn for_lane(bonus: usize) -> (q: CandidateQueue)
        requires
            BASE_TOP_N + bonus <= usize::MAX,
        ensures
            q.wf(),
            q@ == Seq::<HeapEntry>::empty(),
            q.capacity() == BASE_TOP_N + bonus,
    {
        CandidateQueue::new(BASE_TOP_N + bonus)
    }

    pub fn len(&self) -> (n: usize)
        ensures
            n == self@.len(),
    {
        self.entries.len()
    }

    pub fn limit(&self) -> (n: usize)
        ensures
            n == self.capacity(),
    {
        self.limit
    }

    /// The entry at place `i`, counted from the most probable.
    pub fn get(&self, i: usize) -> (e: Option<HeapEntry>)
        ensures
            e == (if i < self@.len() {
                Some(self@[i as int])
            } else {
                None
            }),
    {
        if i < self.entries.len() {
            Some(self.entries[i])
        } else {
            None
        }
    }

    /// Offers an entry: it goes behind every entry that is at least as
    /// probable, and the queue is then cut back to its capacity.
    pub fn insert(&mut self, entry: HeapEntry)
        requires
            old(self).wf(),
            !entry.probability.nan(),
        ensures
            final(self).wf(),
            final(self)@ == after_offer(old(self)@, old(self).capacity(), entry),
            final(self).capacity() == old(self).capacity(),
    {
        proof {
            lemma_offer_keeps_queue(self@, self.capacity(), entry);
            lemma_slot_for(self@, entry.probability.key());
        }
        let at = find_slot(&self.entries, entry.probability.order_key());
        self.entries.insert(at, entry);
        if self.entries.len() > self.limit {
            self.entries.truncate(self.limit);
        }
    }
}

/// The slot of `key` in `v`.
pub fn find_slot(v: &Vec<HeapEntry>, key: i64) -> (at: usize)
    ensures
        at == slot_for(v@, key as int),
{
    let mut at: usize = 0;
    while at < v.len() && v[at].probability.order_key() >= key
        invariant
            at <= v@.len(),
            forall|j: int| 0 <= j < at ==> (#[trigger] v@[j]).probability.key() >= key,
        decreases v@.len() - at,
    {
        at += 1;
    }
    proof {
        lemma_slot_is(v@, key as int, at as int);
    }
    at
}

/// The entries of all queues, lane after lane.
pub open spec fn all_entries(queues: Seq<CandidateQueue>) -> Seq<HeapEntry> {
    queues.map_values(|q: CandidateQueue| q@).flatten()
}

/// The candidates of one lane, in the order in which `s` has them.
pub open spec fn lane_batch(s: Seq<HeapEntry>, lane: int) -> Seq<CandidateDP> {
    s.filter(|e: HeapEntry| e.lane == lane).map_values(|e: HeapEntry| e.dp)
}

/// The values of the candidates, 32 bytes each, one after the other.
pub open spec fn batch_bytes(candidates: Seq<CandidateDP>) -> Seq<u8> {
    Seq::new(32 * candidates.len(), |i: int| candidates[i / 32].value@[i % 32])
}

/// All entries of all queues in one sequence, lane after lane.
pub fn flatten_queues(queues: &[CandidateQueue]) -> (flat: Vec<HeapEntry>)
    ensures
        flat@ == all_entries(queues@),
{
    let ghost views = queues@.map_values(|q: CandidateQueue| q@);
    let mut flat: Vec<HeapEntry> = Vec::new();
    let mut qi: usize = 0;
    assert(views.take(0) =~= Seq::<Seq<HeapEntry>>::empty());
    while qi < queues.len()
        invariant
            qi <= queues@.len(),
            views == queues@.map_values(|q: CandidateQueue| q@),
            flat@ == views.take(qi as int).flatten(),
        decreases queues@.len() - qi,
    {
        let q = &queues[qi];
        let ghost before = flat@;
        let mut ei: usize = 0;
        while ei < q.entries.len()
            invariant
                ei <= q.entries@.len(),
                flat@ == before + q.entries@.take(ei as int),
            decreases q.entries@.len() - ei,
        {
            flat.push(q.entries[ei]);
            assert(q.entries@.take(ei + 1) =~= q.entries@.take(ei as int).push(
                q.entries@[ei as int],
            ));
            ei += 1;
        }
        proof {
            assert(q.entries@.take(ei as int) =~= q@);
            assert(views.take(qi + 1) =~= views.take(qi as int).push(q@));
            views.take(qi as int).lemma_flatten_push(q@);
        }
        qi += 1;
    }
    assert(views.take(qi as int) =~= views);
    flat
}

/// The entries in the order of falling probability; entries of equal
/// probability keep their order.
pub fn rank(entries: &Vec<HeapEntry>) -> (out: Vec<HeapEntry>)
    ensures
        out@ == ranked(entries@),
        sorted_desc(out@),
        out@.to_multiset() == entries@.to_multiset(),
{
    let mut out: Vec<HeapEntry> = Vec::new();
    let mut i: usize = 0;
    assert(entries@.take(0) =~= Seq::<HeapEntry>::empty());
    while i < entries.len()
        invariant
            i <= entries@.len(),
            out@ == ranked(entries@.take(i as int)),
        decreases entries@.len() - i,
    {
        let e = entries[i];
        proof {
            lemma_slot_for(out@, e.probability.key());
            assert(entries@.take(i + 1).drop_last() =~= entries@.take(i as int));
        }
        let at = find_slot(&out, e.probability.order_key());
        out.insert(at, e);
        i += 1;
    }
    proof {
        assert(entries@.take(i as int) =~= entries@);
        lemma_ranked_sorted(entries@);
        lemma_ranked_permutes(entries@);
    }
    out
}

/// The global ranking: the entries of all lanes' queues together, by
/// falling probability.
pub fn rank_globally(queues: &[CandidateQueue]) -> (out: Vec<HeapEntry>)
    ensures
        out@ == ranked(all_entries(queues@)),
        sorted_desc(out@),
        out@.to_multiset() == all_entries(queues@).to_multiset(),
{
    let flat = flatten_queues(queues);
    rank(&flat)
}

/// The candidates of one lane out of a ranking, in the ranking's order.
pub fn collect_lane(entries: &Vec<HeapEntry>, lane: usize) -> (batch: Vec<CandidateDP>)
    ensures
        batch@ == lane_batch(entries@, lane as int),
{
    let ghost pred = |e: HeapEntry| e.lane == lane as int;
    let mut batch: Vec<CandidateDP> = Vec::new();
    let mut i: usize = 0;
    assert(entries@.take(0) =~= Seq::<HeapEntry>::empty());
    while i < entries.len()
        invariant
            i <= entries@.len(),
            pred == |e: HeapEntry| e.lane == lane as int,
            batch@ == entries@.take(i as int).filter(pred).map_values(|e: HeapEntry| e.dp),
        decreases entries@.len() - i,
    {
        let e = entries[i];
        proof {
            let now = entries@.take(i + 1);
            assert(now.drop_last() =~= entries@.take(i as int));
            assert(now.last() == e);
            reveal(Seq::filter);
            if pred(e) {
                assert(now.filter(pred) == entries@.take(i as int).filter(pred).push(e));
                assert(now.filter(pred).map_values(|e: HeapEntry| e.dp) =~= batch@.push(e.dp));
            } else {
                assert(now.filter(pred) == entries@.take(i as int).filter(pred));
            }
        }
        if e.lane == lane {
            batch.push(e.dp);
        }
        i += 1;
    }
    assert(entries@.take(i as int) =~= entries@);
    batch
}

/// The ranking split up again by lane: batch `l` holds lane `l`'s
/// candidates, the most probable first. Entries of a lane that is not
/// below `lanes` go into no batch.
pub fn partition_by_lane(entries: &Vec<HeapEntry>, lanes: usize) -> (batches: Vec<Vec<CandidateDP>>)
    ensures
        batches@.len() == lanes,
        forall|l: int| 0 <= l < lanes ==> (#[trigger] batches@[l])@ == lane_batch(entries@, l),
{
    let mut batches: Vec<Vec<CandidateDP>> = Vec::new();
    let mut lane: usize = 0;
    while lane < lanes
        invariant
            lane <= lanes,
            batches@.len() == lane,
            forall|l: int| 0 <= l < lane ==> (#[trigger] batches@[l])@ == lane_batch(entries@, l),
        decreases lanes - lane,
    {
        let batch = collect_lane(entries, lane);
        batches.push(batch);
        lane += 1;
    }
    batches
}

/// The bytes that go to a lane's device buffer: the candidates' values,
/// 32 bytes each, in order.
pub fn lane_batch_bytes(candidates: &[CandidateDP]) -> (bytes: Vec<u8>)
    ensures
        bytes@ == batch_bytes(candidates@),
{
    let mut bytes: Vec<u8> = Vec::new();
    let mut i: usize = 0;
    while i < candidates.len()
        invariant
            i <= candidates@.len(),
            bytes@.len() == 32 * i,
            forall|k: int| 0 <= k < 32 * i ==> bytes@[k] == candidates@[k / 32].value@[k % 32],
        decreases candidates@.len() - i,
    {
        let mut j: usize = 0;
        while j < 32
            invariant
                j <= 32,
                i < candidates@.len(),
                bytes@.len() == 32 * i + j,
                forall|k: int|
                    0 <= k < 32 * i + j ==> bytes@[k] == candidates@[k / 32].value@[k % 32],
            decreases 32 - j,
        {
            bytes.push(candidates[i].value[j]);
            j += 1;
        }
        i += 1;
    }
    assert(bytes@ =~= batch_bytes(candidates@));
    bytes
}

} // verus!
