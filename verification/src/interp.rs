//! The instruction interpreter: evaluates one unwind instruction against
//! the current (instruction pointer, stack pointer, frame base) triple to
//! produce either a frame base or a return address.

use vstd::prelude::*;
use crate::memory::MemorySource;
use crate::table::{Instruction, OP_ADD_TO_IP, OP_ADD_TO_SP, OP_DEREF_ADD};

verus! {

/// Two's-complement addition of a signed offset to an unsigned base, the
/// arithmetic every opcode combines its operands with.
pub open spec fn wrap_add(base: u64, off: i64) -> u64 {
    vstd::wrapping::u64_specs::wrapping_add_signed(base, off)
}

/// What evaluating `ins` against `(rip, rsp, cfa)` yields under the
/// memory mapping `mem`: dereference `cfa + offset`, failing on unmapped
/// addresses; or `rip + offset`; or `rsp + offset`; or nothing at all
/// under an unrecognized opcode.
pub open spec fn spec_evaluate(
    ins: Instruction,
    rip: u64,
    rsp: u64,
    cfa: u64,
    mem: Map<u64, u64>,
) -> Option<u64> {
    if ins.op == OP_DEREF_ADD {
        let addr = wrap_add(cfa, ins.offset);
        if mem.contains_key(addr) {
            Some(mem[addr])
        } else {
            None
        }
    } else if ins.op == OP_ADD_TO_IP {
        Some(wrap_add(rip, ins.offset))
    } else if ins.op == OP_ADD_TO_SP {
        Some(wrap_add(rsp, ins.offset))
    } else {
        None
    }
}

/// Evaluates one unwind instruction. The result is a function of
/// `(ins, rip, rsp, cfa)` and of the memory source's mapping alone: the
/// dereferencing opcode is the only one that touches memory, and it fails
/// exactly on unmapped addresses. An unrecognized opcode yields `None`,
/// terminating unwinding for the frame at hand.
pub fn execute_instruction<M: MemorySource>(
    ins: &Instruction,
    rip: u64,
    rsp: u64,
    cfa: u64,
    mem: &M,
) -> (r: Option<u64>)
    ensures
        r == spec_evaluate(*ins, rip, rsp, cfa, mem.mem()),
{
    match ins.op {
        OP_DEREF_ADD => mem.read_u64(cfa.wrapping_add_signed(ins.offset)),
        OP_ADD_TO_IP => Some(rip.wrapping_add_signed(ins.offset)),
        OP_ADD_TO_SP => Some(rsp.wrapping_add_signed(ins.offset)),
        _ => None,
    }
}

} // verus!
