//! The stack walker: drives a fixed number of unwind steps, each one a
//! range lookup followed by two rule evaluations, and emits a raw trace
//! of exactly `MAX_STACK_DEPTH` instruction-pointer slots, zero-padded
//! past the point where unwinding stopped.

use vstd::prelude::*;
use crate::interp::{execute_instruction, spec_evaluate};
use crate::memory::MemorySource;
use crate::table::{binary_search, spec_locate, UnwindTable, MAX_STACK_DEPTH};

verus! {

/// A raw trace: a fixed-length ordered sequence of instruction-pointer
/// values, innermost frame first, zero-padded beyond the point where
/// unwinding stopped. Two traces are equal exactly when every slot
/// matches, trailing zero padding included: that fixed-width equality is
/// the aggregation key.
pub struct Trace {
    slots: Vec<u64>,
}

impl View for Trace {
    type V = Seq<u64>;

    closed spec fn view(&self) -> Seq<u64> {
        self.slots@
    }
}

/// `n` zeroed trace slots.
pub open spec fn zero_slots(n: nat) -> Seq<u64> {
    Seq::new(n, |i: int| 0u64)
}

impl Trace {
    pub open spec fn wf(&self) -> bool {
        self@.len() == MAX_STACK_DEPTH
    }

    /// A trace of all-zero slots.
    pub fn zeroed() -> (r: Trace)
        ensures
            r.wf(),
            r@ == zero_slots(MAX_STACK_DEPTH as nat),
    {
        let mut slots: Vec<u64> = Vec::new();
        let mut i: usize = 0;
        while i < MAX_STACK_DEPTH
            invariant
                i <= MAX_STACK_DEPTH,
                slots@.len() == i,
                forall|j: int| 0 <= j < i ==> slots@[j] == 0u64,
            decreases MAX_STACK_DEPTH - i,
        {
            slots.push(0);
            i = i + 1;
        }
        let r = Trace { slots };
        proof {
            assert(r@ =~= zero_slots(MAX_STACK_DEPTH as nat));
        }
        r
    }

    /// The instruction pointer recorded in slot `i`.
    pub fn slot(&self, i: usize) -> (r: u64)
        requires
            self.wf(),
            i < MAX_STACK_DEPTH,
        ensures
            r == self@[i as int],
    {
        self.slots[i]
    }

    /// Writes the instruction pointer `v` into slot `i`.
    pub fn set_slot(&mut self, i: usize, v: u64)
        requires
            old(self).wf(),
            i < MAX_STACK_DEPTH,
        ensures
            final(self).wf(),
            final(self)@ == old(self)@.update(i as int, v),
    {
        self.slots.set(i, v);
    }

    /// Slot-wise equality, trailing zero padding included.
    pub fn same_slots(&self, other: &Trace) -> (r: bool)
        requires
            self.wf(),
            other.wf(),
        ensures
            r == (self@ == other@),
    {
        let mut i: usize = 0;
        while i < MAX_STACK_DEPTH
            invariant
                self.wf(),
                other.wf(),
                i <= MAX_STACK_DEPTH,
                forall|j: int| 0 <= j < i ==> self@[j] == other@[j],
            decreases MAX_STACK_DEPTH - i,
        {
            if self.slots[i] != other.slots[i] {
                return false;
            }
            i = i + 1;
        }
        proof {
            assert(self@ =~= other@);
        }
        true
    }
}

/// The trace the walker owes, starting at `(ip, sp)` with `depth` slots
/// left: the current instruction pointer goes into the first slot; a null
/// pointer, a rule lookup miss or a failed frame-base evaluation ends the
/// walk, zeroing the remaining slots; otherwise the frame-base rule gives
/// the caller's frame base, the return-address rule the next instruction
/// pointer (null on failure, conflating a failed unwind step with the
/// bottom of the stack), and the walk goes on below with the frame base
/// as the new stack pointer.
pub open spec fn spec_walk(
    t: UnwindTable,
    mem: Map<u64, u64>,
    ip: u64,
    sp: u64,
    depth: nat,
) -> Seq<u64>
    decreases depth,
{
    if depth == 0 {
        Seq::empty()
    } else if ip == 0 {
        seq![ip] + zero_slots((depth - 1) as nat)
    } else {
        let i = spec_locate(t.addrs(), ip);
        if i >= t.addrs().len() {
            seq![ip] + zero_slots((depth - 1) as nat)
        } else {
            match spec_evaluate(t.frame_rules()[i], ip, sp, 0, mem) {
                None => seq![ip] + zero_slots((depth - 1) as nat),
                Some(cfa) => {
                    let next_ip = match spec_evaluate(t.return_rules()[i], ip, sp, cfa, mem) {
                        Some(v) => v,
                        None => 0,
                    };
                    seq![ip] + spec_walk(t, mem, next_ip, cfa, (depth - 1) as nat)
                },
            }
        }
    }
}

/// A walk emits exactly as many slots as it was asked for, never more:
/// even a cyclic rule table cannot make it longer or keep it running.
pub proof fn lemma_walk_len(t: UnwindTable, mem: Map<u64, u64>, ip: u64, sp: u64, depth: nat)
    ensures
        spec_walk(t, mem, ip, sp, depth).len() == depth,
    decreases depth,
{
    if depth > 0 && ip != 0 {
        let i = spec_locate(t.addrs(), ip);
        if i < t.addrs().len() {
            if let Some(cfa) = spec_evaluate(t.frame_rules()[i], ip, sp, 0, mem) {
                let next_ip = match spec_evaluate(t.return_rules()[i], ip, sp, cfa, mem) {
                    Some(v) => v,
                    None => 0,
                };
                lemma_walk_len(t, mem, next_ip, cfa, (depth - 1) as nat);
            }
        }
    }
}

/// A walk from a null instruction pointer terminates on its very first
/// check: every slot of the trace is zero, the first one included.
pub proof fn lemma_walk_null_ip(t: UnwindTable, mem: Map<u64, u64>, sp: u64, depth: nat)
    ensures
        spec_walk(t, mem, 0, sp, depth) == zero_slots(depth),
{
    if depth > 0 {
        assert(spec_walk(t, mem, 0, sp, depth) =~= zero_slots(depth));
    } else {
        assert(spec_walk(t, mem, 0, sp, depth) =~= zero_slots(depth));
    }
}

/// Reconstructs the caller chain from one captured sample, filling
/// `trace` with exactly `MAX_STACK_DEPTH` slots. Every call produces a
/// well-formed, possibly short trace; there is no error outcome.
pub fn backtrace<M: MemorySource>(
    table: &UnwindTable,
    mem: &M,
    initial_ip: u64,
    initial_sp: u64,
    trace: &mut Trace,
)
    requires
        table.wf(),
    ensures
        final(trace).wf(),
        final(trace)@ == spec_walk(*table, mem.mem(), initial_ip, initial_sp, MAX_STACK_DEPTH as nat),
        final(trace)@.len() == MAX_STACK_DEPTH,
{
    let ghost full = spec_walk(*table, mem.mem(), initial_ip, initial_sp, MAX_STACK_DEPTH as nat);
    proof {
        lemma_walk_len(*table, mem.mem(), initial_ip, initial_sp, MAX_STACK_DEPTH as nat);
    }
    let mut slots: Vec<u64> = Vec::new();
    let mut ip = initial_ip;
    let mut sp = initial_sp;
    let mut d: usize = 0;
    let mut live = true;
    while live && d < MAX_STACK_DEPTH
        invariant
            table.wf(),
            d == slots@.len(),
            d <= MAX_STACK_DEPTH,
            full == spec_walk(*table, mem.mem(), initial_ip, initial_sp, MAX_STACK_DEPTH as nat),
            live ==> full == slots@ + spec_walk(
                *table,
                mem.mem(),
                ip,
                sp,
                (MAX_STACK_DEPTH - d) as nat,
            ),
            !live ==> full == slots@ + zero_slots((MAX_STACK_DEPTH - d) as nat),
        decreases MAX_STACK_DEPTH - d,
    {
        let ghost depth_left = (MAX_STACK_DEPTH - d) as nat;
        let ghost rest = spec_walk(*table, mem.mem(), ip, sp, depth_left);
        let ghost prev = slots@;
        slots.push(ip);
        d = d + 1;
        if ip == 0 {
            live = false;
            proof {
                assert(rest =~= seq![0u64] + zero_slots((depth_left - 1) as nat));
                assert(slots@ + zero_slots((MAX_STACK_DEPTH - d) as nat) =~= prev + rest);
            }
        } else {
            let i = binary_search(table, ip);
            if i >= table.len() {
                live = false;
                proof {
                    assert(rest == seq![ip] + zero_slots((depth_left - 1) as nat));
                    assert(slots@ + zero_slots((MAX_STACK_DEPTH - d) as nat) =~= prev + rest);
                }
            } else {
                let frame_rule = table.frame_rule(i);
                match execute_instruction(&frame_rule, ip, sp, 0, mem) {
                    None => {
                        live = false;
                        proof {
                            assert(rest == seq![ip] + zero_slots((depth_left - 1) as nat));
                            assert(slots@ + zero_slots((MAX_STACK_DEPTH - d) as nat) =~= prev
                                + rest);
                        }
                    },
                    Some(cfa) => {
                        let return_rule = table.return_rule(i);
                        let next_ip = match execute_instruction(&return_rule, ip, sp, cfa, mem) {
                            Some(v) => v,
                            None => 0,
                        };
                        proof {
                            assert(rest == seq![ip] + spec_walk(
                                *table,
                                mem.mem(),
                                next_ip,
                                cfa,
                                (depth_left - 1) as nat,
                            ));
                            assert(slots@ + spec_walk(
                                *table,
                                mem.mem(),
                                next_ip,
                                cfa,
                                (MAX_STACK_DEPTH - d) as nat,
                            ) =~= prev + rest);
                        }
                        ip = next_ip;
                        sp = cfa;
                    },
                }
            }
        }
    }
    proof {
        if live {
            assert(spec_walk(*table, mem.mem(), ip, sp, 0) =~= Seq::<u64>::empty());
            assert(slots@ + Seq::<u64>::empty() =~= slots@);
            assert(slots@ + zero_slots((MAX_STACK_DEPTH - d) as nat) =~= slots@);
        }
    }
    while d < MAX_STACK_DEPTH
        invariant
            d == slots@.len(),
            d <= MAX_STACK_DEPTH,
            full == slots@ + zero_slots((MAX_STACK_DEPTH - d) as nat),
        decreases MAX_STACK_DEPTH - d,
    {
        let ghost prev = slots@;
        slots.push(0);
        d = d + 1;
        proof {
            assert(slots@ + zero_slots((MAX_STACK_DEPTH - d) as nat) =~= prev + zero_slots(
                (MAX_STACK_DEPTH - d + 1) as nat,
            ));
        }
    }
    proof {
        assert(slots@ + zero_slots(0) =~= slots@);
    }
    *trace = Trace { slots };
}

} // verus!
