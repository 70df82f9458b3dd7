use vstd::prelude::*;
use ic_stable_structures::cell::Cell;
use ic_stable_structures::memory_manager::VirtualMemory;
use ic_stable_structures::DefaultMemoryImpl;
use crate::record::Error;
use crate::region::MemoryRegion;

verus! {

/// A single persisted unsigned 64-bit value, stored in one region. The
/// storage layer uses it for the "next identifier to assign" counter.
#[verifier::external_body]
pub struct ScalarCell {
    cell: Cell<u64, VirtualMemory<DefaultMemoryImpl>>,
}

/// The value currently held by the cell.
pub uninterp spec fn cell_value(c: ScalarCell) -> u64;

impl ScalarCell {
    /// Relies on `Cell::init`: takes over the region, keeping a value the
    /// region already holds and writing `default_value` otherwise; fails
    /// only on a structurally incompatible region layout.
    #[verifier::external_body]
    pub fn init(region: MemoryRegion, default_value: u64) -> (r: Result<ScalarCell, Error>)
        ensures
            r matches Err(e) ==> e is Fatal,
    {
        match Cell::init(region.mem, default_value) {
            Ok(cell) => Ok(ScalarCell { cell }),
            Err(_) => Err(Error::Fatal),
        }
    }

    /// Relies on `Cell::get`: returns the value the cell holds.
    #[verifier::external_body]
    pub fn get(&self) -> (r: u64)
        ensures
            r == cell_value(*self),
    {
        *self.cell.get()
    }

    /// Relies on `Cell::set`: overwrites the held value and returns the
    /// previous one; on a write failure the held value is unchanged.
    #[verifier::external_body]
    pub fn set(&mut self, value: u64) -> (r: Result<u64, Error>)
        ensures
            r matches Ok(prev) ==> prev == cell_value(*old(self)) && cell_value(*final(self))
                == value,
            r matches Err(e) ==> e is Fatal && cell_value(*final(self)) == cell_value(*old(self)),
    {
        match self.cell.set(value) {
            Ok(prev) => Ok(prev),
            Err(_) => Err(Error::Fatal),
        }
    }
}

} // verus!
