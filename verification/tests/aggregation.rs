use stack_profiler::aggregate::{increment_stack_counter, AggregationTable};
use stack_profiler::memory::MemoryImage;
use stack_profiler::table::{Instruction, UnwindTable, OP_ADD_TO_IP, OP_ADD_TO_SP};
use stack_profiler::walker::Trace;

fn trace_of(slots: &[u64]) -> Trace {
    let mut t = Trace::zeroed();
    for (i, &s) in slots.iter().enumerate() {
        t.set_slot(i, s);
    }
    t
}

#[test]
fn equal_traces_are_one_key_counted_twice() {
    let mut agg = AggregationTable::with_max_entries(1024);
    let t1 = trace_of(&[0x3000, 0x2000, 0x1000]);
    let t2 = trace_of(&[0x3000, 0x2000, 0x1000]);
    assert!(t1.same_slots(&t2));
    agg.record(t1);
    agg.record(t2);
    assert_eq!(agg.len(), 1);
    assert_eq!(agg.get(&trace_of(&[0x3000, 0x2000, 0x1000])), Some(2));
}

#[test]
fn traces_differing_in_padding_are_distinct_keys() {
    let mut agg = AggregationTable::with_max_entries(1024);
    let padded = trace_of(&[0x3000, 0x2000]);
    let longer = trace_of(&[0x3000, 0x2000, 0x1000]);
    assert!(!padded.same_slots(&longer));
    agg.record(padded);
    agg.record(longer);
    assert_eq!(agg.len(), 2);
    assert_eq!(agg.get(&trace_of(&[0x3000, 0x2000])), Some(1));
    assert_eq!(agg.get(&trace_of(&[0x3000, 0x2000, 0x1000])), Some(1));
}

#[test]
fn get_misses_on_unrecorded_traces() {
    let mut agg = AggregationTable::with_max_entries(16);
    agg.record(trace_of(&[1, 2, 3]));
    assert_eq!(agg.get(&trace_of(&[1, 2, 4])), None);
    assert_eq!(agg.get(&trace_of(&[])), None);
}

#[test]
fn insert_overwrites_and_remove_deletes() {
    let mut agg = AggregationTable::with_max_entries(16);
    agg.insert(trace_of(&[7, 8]), 41);
    assert_eq!(agg.get(&trace_of(&[7, 8])), Some(41));
    agg.insert(trace_of(&[7, 8]), 5);
    assert_eq!(agg.get(&trace_of(&[7, 8])), Some(5));
    assert_eq!(agg.len(), 1);
    agg.remove(&trace_of(&[7, 8]));
    assert_eq!(agg.get(&trace_of(&[7, 8])), None);
    assert_eq!(agg.len(), 0);
    // Removing an absent key is a no-op.
    agg.remove(&trace_of(&[7, 8]));
    assert_eq!(agg.len(), 0);
}

#[test]
fn a_full_table_drops_new_traces_but_keeps_counting_held_ones() {
    let mut agg = AggregationTable::with_max_entries(1);
    agg.record(trace_of(&[1]));
    agg.record(trace_of(&[2]));
    assert_eq!(agg.len(), 1);
    assert_eq!(agg.get(&trace_of(&[1])), Some(1));
    assert_eq!(agg.get(&trace_of(&[2])), None);
    agg.record(trace_of(&[1]));
    assert_eq!(agg.get(&trace_of(&[1])), Some(2));
}

#[test]
fn counts_saturate_instead_of_wrapping() {
    let mut agg = AggregationTable::with_max_entries(4);
    agg.insert(trace_of(&[9]), u64::MAX);
    agg.record(trace_of(&[9]));
    assert_eq!(agg.get(&trace_of(&[9])), Some(u64::MAX));
}

#[test]
fn interleaved_read_increment_write_never_decreases_the_count() {
    // Two contexts each read the count, then each write back its own
    // increment; the later write wins, but the stored count never drops
    // and at least one increment lands.
    let mut agg = AggregationTable::with_max_entries(16);
    agg.record(trace_of(&[5, 6]));
    let before = agg.get(&trace_of(&[5, 6])).unwrap();
    let c1 = agg.get(&trace_of(&[5, 6])).unwrap();
    let c2 = agg.get(&trace_of(&[5, 6])).unwrap();
    agg.insert(trace_of(&[5, 6]), c1 + 1);
    agg.insert(trace_of(&[5, 6]), c2 + 1);
    let after = agg.get(&trace_of(&[5, 6])).unwrap();
    assert!(after >= before);
    assert_eq!(after, before + 1);
}

#[test]
fn serialized_records_lose_no_count() {
    let mut agg = AggregationTable::with_max_entries(16);
    for expected in 1..=10u64 {
        agg.record(trace_of(&[0xabc]));
        assert_eq!(agg.get(&trace_of(&[0xabc])), Some(expected));
    }
}

#[test]
fn one_sample_walked_and_counted() {
    let mut t = UnwindTable::new();
    t.push_entry(
        0x1000,
        Instruction { op: OP_ADD_TO_SP, offset: 16 },
        Instruction { op: OP_ADD_TO_IP, offset: -0x1000 },
    );
    t.push_entry(
        0x2000,
        Instruction { op: OP_ADD_TO_SP, offset: 16 },
        Instruction { op: OP_ADD_TO_IP, offset: -0x1000 },
    );
    let mem = MemoryImage::new();
    let mut agg = AggregationTable::with_max_entries(64);
    increment_stack_counter(&t, &mem, &mut agg, 0x2000, 0x100);
    increment_stack_counter(&t, &mem, &mut agg, 0x2000, 0x100);
    increment_stack_counter(&t, &mem, &mut agg, 0x1000, 0x100);
    assert_eq!(agg.len(), 2);
    assert_eq!(agg.get(&trace_of(&[0x2000, 0x1000])), Some(2));
    assert_eq!(agg.get(&trace_of(&[0x1000])), Some(1));
}
