//! Flags attached to events inserted into a perf events array, and their
//! packing into the raw 64-bit flag word the kernel-facing insert call
//! takes.

use vstd::prelude::*;

verus! {

/// The conventional index value marking an event as keyed by the current
/// processor rather than by an explicit index.
pub const BPF_F_CURRENT_CPU: u32 = 0xffff_ffff;

/// Flags for inserting an event: an optional explicit index key and the
/// number of extra payload bytes to append.
#[derive(Debug, Copy, Clone)]
pub struct PerfMapFlags {
    index: Option<u32>,
    pub(crate) xdp_size: u32,
}

impl PerfMapFlags {
    /// The index key the event is inserted under, if one was set.
    pub closed spec fn spec_index(&self) -> Option<u32> {
        self.index
    }

    /// The number of extra payload bytes appended to the event.
    pub closed spec fn spec_xdp_size(&self) -> u32 {
        self.xdp_size
    }
}

impl Default for PerfMapFlags {
    /// Default flags: keyed by the current processor, no extra payload.
    fn default() -> (r: Self)
        ensures
            r.spec_index() == None::<u32>,
            r.spec_xdp_size() == 0,
    {
        PerfMapFlags { index: None, xdp_size: 0 }
    }
}

impl PerfMapFlags {
    /// Create new default flags.
    ///
    /// Events inserted with default flags are keyed by the current
    /// processor number and carry no extra payload data.
    pub fn new() -> (r: Self)
        ensures
            r.spec_index() == None::<u32>,
            r.spec_xdp_size() == 0,
    {
        Default::default()
    }

    /// Create flags for events carrying `size` extra bytes of payload data.
    pub fn with_xdp_size(size: u32) -> (r: Self)
        ensures
            r.spec_index() == None::<u32>,
            r.spec_xdp_size() == size,
    {
        *PerfMapFlags::new().xdp_size(size)
    }

    /// Set the index key for the event to insert.
    pub fn index(&mut self, index: u32) -> (r: &mut PerfMapFlags)
        ensures
            (*r).spec_index() == Some(index),
            (*r).spec_xdp_size() == old(self).spec_xdp_size(),
            *final(self) == *final(r),
    {
        self.index = Some(index);
        self
    }

    /// Set the number of bytes of payload data to append to the event.
    pub fn xdp_size(&mut self, size: u32) -> (r: &mut PerfMapFlags)
        ensures
            (*r).spec_index() == old(self).spec_index(),
            (*r).spec_xdp_size() == size,
            *final(self) == *final(r),
    {
        self.xdp_size = size;
        self
    }
}

/// The raw 64-bit flag word: the payload size in the upper half, the
/// index key (or the current-processor marker) in the lower half.
pub closed spec fn spec_raw_flags(flags: PerfMapFlags) -> u64 {
    ((flags.xdp_size as u64) << 32) | (match flags.index {
        Some(i) => i as u64,
        None => BPF_F_CURRENT_CPU as u64,
    })
}

impl From<PerfMapFlags> for u64 {
    fn from(flags: PerfMapFlags) -> (r: u64) {
        ((flags.xdp_size as u64) << 32) | (match flags.index {
            Some(i) => i as u64,
            None => BPF_F_CURRENT_CPU as u64,
        })
    }
}

impl vstd::std_specs::convert::FromSpecImpl<PerfMapFlags> for u64 {
    open spec fn obeys_from_spec() -> bool {
        true
    }

    open spec fn from_spec(flags: PerfMapFlags) -> u64 {
        spec_raw_flags(flags)
    }
}

} // verus!
