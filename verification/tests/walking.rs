use stack_profiler::memory::MemoryImage;
use stack_profiler::table::{
    Instruction, UnwindTable, MAX_STACK_DEPTH, OP_ADD_TO_IP, OP_ADD_TO_SP, OP_DEREF_ADD,
};
use stack_profiler::walker::{backtrace, Trace};

fn walk(table: &UnwindTable, mem: &MemoryImage, ip: u64, sp: u64) -> Vec<u64> {
    let mut trace = Trace::zeroed();
    backtrace(table, mem, ip, sp, &mut trace);
    let mut out = Vec::new();
    for i in 0..MAX_STACK_DEPTH {
        out.push(trace.slot(i));
    }
    out
}

#[test]
fn null_initial_ip_terminates_at_depth_zero() {
    let t = UnwindTable::new();
    let mem = MemoryImage::new();
    let slots = walk(&t, &mem, 0, 0x7fff_0000);
    assert_eq!(slots.len(), MAX_STACK_DEPTH);
    assert_eq!(slots[0], 0);
    assert!(slots.iter().all(|&s| s == 0));
}

#[test]
fn empty_table_truncates_after_the_first_frame() {
    let t = UnwindTable::new();
    let mem = MemoryImage::new();
    let slots = walk(&t, &mem, 0x4242, 0x100);
    assert_eq!(slots[0], 0x4242);
    assert!(slots[1..].iter().all(|&s| s == 0));
}

#[test]
fn three_level_table_yields_the_call_order() {
    // Each level's return-address rule points at the address of the level
    // below; the bottom level's return address resolves to 0.
    let addr0: u64 = 0x1000;
    let addr1: u64 = 0x2000;
    let addr2: u64 = 0x3000;
    let mut t = UnwindTable::new();
    t.push_entry(
        addr0,
        Instruction { op: OP_ADD_TO_SP, offset: 16 },
        Instruction { op: OP_ADD_TO_IP, offset: -0x1000 },
    );
    t.push_entry(
        addr1,
        Instruction { op: OP_ADD_TO_SP, offset: 16 },
        Instruction { op: OP_ADD_TO_IP, offset: -0x1000 },
    );
    t.push_entry(
        addr2,
        Instruction { op: OP_ADD_TO_SP, offset: 16 },
        Instruction { op: OP_ADD_TO_IP, offset: -0x1000 },
    );
    let mem = MemoryImage::new();
    let slots = walk(&t, &mem, addr2, 0x100);
    assert_eq!(slots[0], addr2);
    assert_eq!(slots[1], addr1);
    assert_eq!(slots[2], addr0);
    assert!(slots[3..].iter().all(|&s| s == 0));
}

#[test]
fn return_addresses_read_from_memory() {
    // Frame bases come from the stack pointer; each return address is read
    // from memory at the frame base, like a saved return address slot.
    let addr0: u64 = 0x1000;
    let addr1: u64 = 0x2000;
    let mut t = UnwindTable::new();
    t.push_entry(
        addr0,
        Instruction { op: OP_ADD_TO_SP, offset: 8 },
        Instruction { op: OP_DEREF_ADD, offset: 0 },
    );
    t.push_entry(
        addr1,
        Instruction { op: OP_ADD_TO_SP, offset: 8 },
        Instruction { op: OP_DEREF_ADD, offset: 0 },
    );
    let mut mem = MemoryImage::new();
    // Starting at sp = 0x500: first frame base 0x508 holds addr0, the next
    // frame base 0x510 holds 0, the bottom of the stack.
    mem.set(0x508, addr0);
    mem.set(0x510, 0);
    let slots = walk(&t, &mem, addr1, 0x500);
    assert_eq!(slots[0], addr1);
    assert_eq!(slots[1], addr0);
    assert!(slots[2..].iter().all(|&s| s == 0));
}

#[test]
fn failed_memory_read_truncates_the_trace() {
    let mut t = UnwindTable::new();
    t.push_entry(
        0x1000,
        Instruction { op: OP_DEREF_ADD, offset: 0 },
        Instruction { op: OP_ADD_TO_IP, offset: 0 },
    );
    let mem = MemoryImage::new();
    let slots = walk(&t, &mem, 0x1000, 0x500);
    assert_eq!(slots[0], 0x1000);
    assert!(slots[1..].iter().all(|&s| s == 0));
}

#[test]
fn unrecognized_opcode_truncates_the_trace() {
    let mut t = UnwindTable::new();
    t.push_entry(
        0x1000,
        Instruction { op: 77, offset: 0 },
        Instruction { op: OP_ADD_TO_IP, offset: 0 },
    );
    let mem = MemoryImage::new();
    let slots = walk(&t, &mem, 0x1000, 0x500);
    assert_eq!(slots[0], 0x1000);
    assert!(slots[1..].iter().all(|&s| s == 0));
}

#[test]
fn failed_return_rule_becomes_a_zero_sentinel() {
    // The frame-base rule succeeds but the return-address rule fails: the
    // next slot holds the zero sentinel and the walk ends cleanly.
    let mut t = UnwindTable::new();
    t.push_entry(
        0x1000,
        Instruction { op: OP_ADD_TO_SP, offset: 0 },
        Instruction { op: OP_DEREF_ADD, offset: 0 },
    );
    let mem = MemoryImage::new();
    let slots = walk(&t, &mem, 0x1000, 0x500);
    assert_eq!(slots[0], 0x1000);
    assert!(slots[1..].iter().all(|&s| s == 0));
}

#[test]
fn cyclic_rule_table_stops_at_max_depth() {
    // The return-address rule maps every instruction pointer to itself: an
    // unbounded cycle. The walk still emits exactly MAX_STACK_DEPTH slots.
    let mut t = UnwindTable::new();
    t.push_entry(
        0x1000,
        Instruction { op: OP_ADD_TO_SP, offset: 0 },
        Instruction { op: OP_ADD_TO_IP, offset: 0 },
    );
    let mem = MemoryImage::new();
    let slots = walk(&t, &mem, 0x1000, 0x500);
    assert_eq!(slots.len(), MAX_STACK_DEPTH);
    assert!(slots.iter().all(|&s| s == 0x1000));
}

#[test]
fn two_step_cycle_stops_at_max_depth() {
    let mut t = UnwindTable::new();
    t.push_entry(
        0x1000,
        Instruction { op: OP_ADD_TO_SP, offset: 0 },
        Instruction { op: OP_ADD_TO_IP, offset: 0x1000 },
    );
    t.push_entry(
        0x2000,
        Instruction { op: OP_ADD_TO_SP, offset: 0 },
        Instruction { op: OP_ADD_TO_IP, offset: -0x1000 },
    );
    let mem = MemoryImage::new();
    let slots = walk(&t, &mem, 0x1000, 0x500);
    assert_eq!(slots.len(), MAX_STACK_DEPTH);
    for (i, &s) in slots.iter().enumerate() {
        if i % 2 == 0 {
            assert_eq!(s, 0x1000);
        } else {
            assert_eq!(s, 0x2000);
        }
    }
}
