use vstd::prelude::*;
use ic_stable_structures::memory_manager::{MemoryId, MemoryManager, VirtualMemory};
use ic_stable_structures::DefaultMemoryImpl;

verus! {

/// A handle to one logical region: a disjoint byte range of the underlying
/// linear memory, stable across calls and across process restarts.
#[verifier::external_body]
pub struct MemoryRegion {
    pub(crate) mem: VirtualMemory<DefaultMemoryImpl>,
}

/// Partitions the process's single linear memory into independently
/// addressable logical regions identified by a small integer.
#[verifier::external_body]
pub struct RegionAllocator {
    manager: MemoryManager<DefaultMemoryImpl>,
}

impl RegionAllocator {
    /// Relies on `MemoryManager::init`: lays the region table out over the
    /// process's default linear memory.
    #[verifier::external_body]
    pub fn new() -> (r: RegionAllocator) {
        RegionAllocator { manager: MemoryManager::init(DefaultMemoryImpl::default()) }
    }

    /// Relies on `MemoryManager::get`: the same id always yields a handle
    /// to the same region, and distinct ids yield handles to disjoint byte
    /// ranges. `MemoryId::new` rejects the reserved id 255, so that value
    /// is excluded here.
    #[verifier::external_body]
    pub fn region(&self, id: u8) -> (r: MemoryRegion)
        requires
            id < 255,
    {
        MemoryRegion { mem: self.manager.get(MemoryId::new(id)) }
    }
}

} // verus!
