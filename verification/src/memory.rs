//! The fallible memory-read primitive the instruction interpreter depends
//! on, as an injectable capability: a trait whose one method reads an
//! 8-byte value from an address of the sampled process, and a concrete
//! finite memory image implementing it, so that interpretation can run
//! without a real process behind it.

use vstd::prelude::*;
use vstd::map::*;

verus! {

/// A source of 8-byte reads from the sampled process's address space.
///
/// `mem` is the mapping the source answers from: a read succeeds exactly
/// on the mapped addresses and returns the mapped value. Reads have no
/// further effect, so interpretation is a pure function of its inputs and
/// of this mapping.
pub trait MemorySource {
    spec fn mem(&self) -> Map<u64, u64>;

    fn read_u64(&self, addr: u64) -> (r: Option<u64>)
        ensures
            r == (if self.mem().contains_key(addr) {
                Some(self.mem()[addr])
            } else {
                None::<u64>
            }),
    ;
}

/// The value the first cell holding `addr` carries, if any.
spec fn first_match(cells: Seq<(u64, u64)>, addr: u64) -> Option<u64>
    decreases cells.len(),
{
    if cells.len() == 0 {
        None
    } else if cells[0].0 == addr {
        Some(cells[0].1)
    } else {
        first_match(cells.skip(1), addr)
    }
}

/// A finite memory image: an explicit list of mapped addresses and their
/// values. Newer cells stand in front, so a rewritten address answers
/// with its latest value.
pub struct MemoryImage {
    cells: Vec<(u64, u64)>,
}

impl MemoryImage {
    pub fn new() -> (r: MemoryImage)
        ensures
            r.mem() == Map::<u64, u64>::empty(),
    {
        let r = MemoryImage { cells: Vec::new() };
        proof {
            assert(r.mem() =~= Map::<u64, u64>::empty());
        }
        r
    }

    /// Maps `addr` to `val`, replacing what the image held there before.
    pub fn set(&mut self, addr: u64, val: u64)
        ensures
            final(self).mem() == old(self).mem().insert(addr, val),
    {
        self.cells.insert(0, (addr, val));
        proof {
            assert(self.cells@.skip(1) =~= old(self).cells@);
            assert(self.mem() =~= old(self).mem().insert(addr, val));
        }
    }
}

impl MemorySource for MemoryImage {
    closed spec fn mem(&self) -> Map<u64, u64> {
        Map::new(
            |addr: u64| first_match(self.cells@, addr) is Some,
            |addr: u64| first_match(self.cells@, addr)->Some_0,
        )
    }

    fn read_u64(&self, addr: u64) -> (r: Option<u64>)
        ensures
            r == (if self.mem().contains_key(addr) {
                Some(self.mem()[addr])
            } else {
                None::<u64>
            }),
    {
        let mut i: usize = 0;
        proof {
            assert(self.cells@.skip(0) =~= self.cells@);
        }
        while i < self.cells.len()
            invariant
                i <= self.cells@.len(),
                first_match(self.cells@, addr) == first_match(self.cells@.skip(i as int), addr),
            decreases self.cells@.len() - i,
        {
            let cell = self.cells[i];
            if cell.0 == addr {
                proof {
                    assert(self.cells@.skip(i as int)[0] == cell);
                }
                return Some(cell.1);
            }
            proof {
                assert(self.cells@.skip(i as int).skip(1) =~= self.cells@.skip(i + 1));
            }
            i = i + 1;
        }
        proof {
            assert(self.cells@.skip(i as int).len() == 0);
        }
        None
    }
}

} // verus!
