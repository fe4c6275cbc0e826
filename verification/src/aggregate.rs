//! The trace aggregator: a capacity-bounded table from raw traces to
//! occurrence counts, offering the point operations of a bounded
//! key-value store (get, insert, remove) and the record step that counts
//! one more occurrence of a trace.

use vstd::prelude::*;
use vstd::map::*;
use crate::memory::MemorySource;
use crate::table::{UnwindTable, MAX_STACK_DEPTH};
use crate::walker::{backtrace, spec_walk, Trace};

verus! {

/// One more occurrence: counts saturate instead of wrapping around.
pub open spec fn saturating_increment(c: u64) -> u64 {
    if c == u64::MAX {
        c
    } else {
        (c + 1) as u64
    }
}

/// What recording the trace `k` does to the aggregation mapping `m`: a
/// known trace has its count incremented, a new one enters with count 1
/// while the table has room, and a full table drops the new observation
/// (the store's own failure mode at capacity).
pub open spec fn spec_record(m: Map<Seq<u64>, u64>, k: Seq<u64>, capacity: nat) -> Map<
    Seq<u64>,
    u64,
> {
    if m.contains_key(k) {
        m.insert(k, saturating_increment(m[k]))
    } else if m.dom().len() < capacity {
        m.insert(k, 1)
    } else {
        m
    }
}

/// The aggregation table. Its view is the mapping from raw traces (as
/// slot sequences, zero padding included) to occurrence counts; the
/// capacity is fixed at creation.
pub struct AggregationTable {
    entries: Vec<(Trace, u64)>,
    max_entries: u32,
    contents: Ghost<Map<Seq<u64>, u64>>,
}

impl View for AggregationTable {
    type V = Map<Seq<u64>, u64>;

    closed spec fn view(&self) -> Map<Seq<u64>, u64> {
        self.contents@
    }
}

impl AggregationTable {
    /// Number of entries the table can hold at most.
    pub closed spec fn capacity(&self) -> nat {
        self.max_entries as nat
    }

    pub open spec fn is_full(&self) -> bool {
        self@.dom().len() >= self.capacity()
    }

    pub closed spec fn wf(&self) -> bool {
        let es = self.entries@;
        let m = self.contents@;
        &&& forall|i: int, j: int| 0 <= i < j < es.len() ==> es[i].0@ != es[j].0@
        &&& forall|i: int| 0 <= i < es.len() ==> (#[trigger] es[i].0).wf()
        &&& forall|i: int|
            0 <= i < es.len() ==> m.contains_key(#[trigger] es[i].0@) && m[es[i].0@] == es[i].1
        &&& forall|k: Seq<u64>|
            #[trigger] m.contains_key(k) ==> exists|i: int| 0 <= i < es.len() && es[i].0@ == k
        &&& m.dom().finite()
        &&& m.dom().len() == es.len()
        &&& es.len() <= self.max_entries
    }

    /// Creates a table with the specified maximum number of entries.
    pub fn with_max_entries(max_entries: u32) -> (r: AggregationTable)
        ensures
            r.wf(),
            r@ == Map::<Seq<u64>, u64>::empty(),
            r.capacity() == max_entries as nat,
    {
        let r = AggregationTable {
            entries: Vec::new(),
            max_entries,
            contents: Ghost(Map::empty()),
        };
        proof {
            assert(r@.dom() =~= Set::<Seq<u64>>::empty());
        }
        r
    }

    /// Number of distinct traces held.
    pub fn len(&self) -> (r: usize)
        requires
            self.wf(),
        ensures
            r == self@.dom().len(),
    {
        self.entries.len()
    }

    /// The index of the entry holding `key`, if any.
    fn find(&self, key: &Trace) -> (r: Option<usize>)
        requires
            self.wf(),
            key.wf(),
        ensures
            match r {
                Some(i) => i < self.entries@.len() && self.entries@[i as int].0@ == key@,
                None => !self@.contains_key(key@),
            },
    {
        let mut i: usize = 0;
        while i < self.entries.len()
            invariant
                self.wf(),
                key.wf(),
                i <= self.entries@.len(),
                forall|j: int| 0 <= j < i ==> self.entries@[j].0@ != key@,
            decreases self.entries@.len() - i,
        {
            if self.entries[i].0.same_slots(key) {
                return Some(i);
            }
            i = i + 1;
        }
        proof {
            if self@.contains_key(key@) {
                let j = choose|j: int| 0 <= j < self.entries@.len() && self.entries@[j].0@ == key@;
                assert(self.entries@[j].0@ != key@);
            }
        }
        None
    }

    /// Point lookup: the count stored for `key`, if the trace is held.
    pub fn get(&self, key: &Trace) -> (r: Option<u64>)
        requires
            self.wf(),
            key.wf(),
        ensures
            r == (if self@.contains_key(key@) {
                Some(self@[key@])
            } else {
                None::<u64>
            }),
    {
        match self.find(key) {
            Some(i) => Some(self.entries[i].1),
            None => None,
        }
    }

    /// Upsert: overwrites the count of a held trace; a new trace enters
    /// while the table has room and is dropped once it is full.
    pub fn insert(&mut self, key: Trace, value: u64)
        requires
            old(self).wf(),
            key.wf(),
        ensures
            final(self).wf(),
            final(self).capacity() == old(self).capacity(),
            old(self)@.contains_key(key@) || !old(self).is_full() ==> final(self)@ == old(
                self,
            )@.insert(key@, value),
            !old(self)@.contains_key(key@) && old(self).is_full() ==> final(self)@ == old(self)@,
    {
        let ghost m = self.contents@;
        let ghost es = self.entries@;
        match self.find(&key) {
            Some(i) => {
                let ghost k = key@;
                self.entries.set(i, (key, value));
                proof {
                    self.contents = Ghost(m.insert(k, value));
                    assert(m.dom().insert(k) =~= m.dom());
                    assert forall|k2: Seq<u64>| #[trigger]
                        self.contents@.contains_key(k2) implies exists|j: int|
                        0 <= j < self.entries@.len() && self.entries@[j].0@ == k2 by {
                        if k2 == k {
                            assert(self.entries@[i as int].0@ == k2);
                        } else {
                            let j = choose|j: int| 0 <= j < es.len() && es[j].0@ == k2;
                            assert(self.entries@[j].0@ == k2);
                        }
                    }
                }
            },
            None => {
                if self.entries.len() < self.max_entries as usize {
                    let ghost k = key@;
                    self.entries.push((key, value));
                    proof {
                        self.contents = Ghost(m.insert(k, value));
                        assert(m.dom().insert(k).len() == m.dom().len() + 1);
                        assert forall|k2: Seq<u64>| #[trigger]
                            self.contents@.contains_key(k2) implies exists|j: int|
                            0 <= j < self.entries@.len() && self.entries@[j].0@ == k2 by {
                            if k2 == k {
                                assert(self.entries@[es.len() as int].0@ == k2);
                            } else {
                                let j = choose|j: int| 0 <= j < es.len() && es[j].0@ == k2;
                                assert(self.entries@[j].0@ == k2);
                            }
                        }
                    }
                }
            },
        }
    }

    /// Deletes the entry for `key` if the trace is held; a no-op otherwise.
    pub fn remove(&mut self, key: &Trace)
        requires
            old(self).wf(),
            key.wf(),
        ensures
            final(self).wf(),
            final(self).capacity() == old(self).capacity(),
            final(self)@ == old(self)@.remove(key@),
    {
        let ghost m = self.contents@;
        let ghost es = self.entries@;
        let ghost k = key@;
        match self.find(key) {
            Some(i) => {
                self.entries.remove(i);
                proof {
                    self.contents = Ghost(m.remove(k));
                    assert(m.dom().remove(k).len() == m.dom().len() - 1);
                    assert forall|i2: int, j2: int|
                        0 <= i2 < j2 < self.entries@.len() implies self.entries@[i2].0@
                        != self.entries@[j2].0@ by {
                        let oi = if i2 < i { i2 } else { i2 + 1 };
                        let oj = if j2 < i { j2 } else { j2 + 1 };
                        assert(self.entries@[i2] == es[oi]);
                        assert(self.entries@[j2] == es[oj]);
                    }
                    assert forall|j: int|
                        0 <= j < self.entries@.len() implies (#[trigger] self.entries@[j].0).wf()
                        && self.contents@.contains_key(self.entries@[j].0@)
                        && self.contents@[self.entries@[j].0@] == self.entries@[j].1 by {
                        let oj = if j < i { j } else { j + 1 };
                        assert(self.entries@[j] == es[oj]);
                        assert(es[oj].0@ != k);
                    }
                    assert forall|k2: Seq<u64>| #[trigger]
                        self.contents@.contains_key(k2) implies exists|j: int|
                        0 <= j < self.entries@.len() && self.entries@[j].0@ == k2 by {
                        let oj = choose|oj: int| 0 <= oj < es.len() && es[oj].0@ == k2;
                        let j = if oj < i {
                            oj
                        } else {
                            oj - 1
                        };
                        assert(oj != i);
                        assert(self.entries@[j] == es[oj]);
                        assert(self.entries@[j].0@ == k2);
                    }
                }
            },
            None => {
                proof {
                    assert(m.remove(k) =~= m);
                    self.contents = Ghost(m.remove(k));
                }
            },
        }
    }

    /// Counts one occurrence of `trace`: looks the trace up, enters it
    /// with count 1 on first observation, and writes back the incremented
    /// count on every repeat observation.
    pub fn record(&mut self, trace: Trace)
        requires
            old(self).wf(),
            trace.wf(),
        ensures
            final(self).wf(),
            final(self).capacity() == old(self).capacity(),
            final(self)@ == spec_record(old(self)@, trace@, old(self).capacity()),
    {
        match self.get(&trace) {
            Some(count) => {
                let next = if count == u64::MAX {
                    count
                } else {
                    count + 1
                };
                self.insert(trace, next);
            },
            None => {
                self.insert(trace, 1);
            },
        }
    }
}

/// Walks the stack from one captured sample and counts the resulting
/// trace: the whole per-sample step, from raw registers to an updated
/// aggregation table.
pub fn increment_stack_counter<M: MemorySource>(
    table: &UnwindTable,
    mem: &M,
    counts: &mut AggregationTable,
    ip: u64,
    sp: u64,
)
    requires
        table.wf(),
        old(counts).wf(),
    ensures
        final(counts).wf(),
        final(counts).capacity() == old(counts).capacity(),
        final(counts)@ == spec_record(
            old(counts)@,
            spec_walk(*table, mem.mem(), ip, sp, MAX_STACK_DEPTH as nat),
            old(counts).capacity(),
        ),
{
    let mut stack = Trace::zeroed();
    backtrace(table, mem, ip, sp, &mut stack);
    counts.record(stack);
}

/// Recording two slot-wise equal traces, zero padding included, into an
/// empty table with room leaves a single entry, counted twice: equal
/// traces are one and the same aggregation key.
pub proof fn lemma_record_equal_traces(t1: Seq<u64>, t2: Seq<u64>, capacity: nat)
    requires
        t1 == t2,
        capacity >= 1,
    ensures
        ({
            let m = spec_record(
                spec_record(Map::<Seq<u64>, u64>::empty(), t1, capacity),
                t2,
                capacity,
            );
            &&& m.dom() =~= set![t1]
            &&& m[t1] == 2
        }),
{
    let m0 = Map::<Seq<u64>, u64>::empty();
    assert(m0.dom() =~= Set::<Seq<u64>>::empty());
    let m1 = spec_record(m0, t1, capacity);
    assert(m1 == m0.insert(t1, 1u64));
    let m = spec_record(m1, t2, capacity);
    assert(m.dom() =~= set![t1]);
}

/// Two contexts that each read the count of the same key and write back
/// their own increment may lose one of the increments to the other, but
/// the stored count never decreases, and at least one increment lands.
pub proof fn lemma_interleaved_record_monotonic(
    m: Map<Seq<u64>, u64>,
    k: Seq<u64>,
    c1: u64,
    c2: u64,
)
    requires
        m.contains_key(k),
        c1 == m[k],
        c2 == m[k],
    ensures
        ({
            let m2 = m.insert(k, saturating_increment(c1)).insert(k, saturating_increment(c2));
            &&& m2[k] >= m[k]
            &&& m2[k] == saturating_increment(m[k])
        }),
{
}

/// Under sequential execution no count is silently dropped: two
/// serialized recordings of the same key raise its count by exactly two.
pub proof fn lemma_serialized_records_count(m: Map<Seq<u64>, u64>, k: Seq<u64>, capacity: nat)
    requires
        m.contains_key(k) ==> m[k] + 2 <= u64::MAX,
        !m.contains_key(k) ==> m.dom().len() < capacity,
    ensures
        ({
            let m2 = spec_record(spec_record(m, k, capacity), k, capacity);
            m2[k] == (if m.contains_key(k) {
                m[k] + 2int
            } else {
                2int
            })
        }),
{
}

} // verus!
