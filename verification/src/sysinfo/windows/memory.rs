//! The memory of a Windows system, as `GlobalMemoryStatusEx` reports it.
use vstd::prelude::*;

verus! {

/// The figures of `GlobalMemoryStatusEx` that are kept.
#[derive(Clone, Copy, Debug, PartialEq, Eq, Structural)]
pub struct MemoryStatus {
    /// Percentage of the physical memory in use.
    pub memory_load: u32,
    /// Physical memory, in bytes.
    pub total_phys: u64,
    /// Physical memory available, in bytes.
    pub avail_phys: u64,
}

/// The memory of the system.
#[derive(Clone, Copy, Debug)]
pub struct MemoryInfo {
    memory_load: u32,
    total_phys: u64,
    avail_phys: u64,
}

impl MemoryInfo {
    /// The figures that the memory holds.
    pub closed spec fn status(&self) -> MemoryStatus {
        MemoryStatus {
            memory_load: self.memory_load,
            total_phys: self.total_phys,
            avail_phys: self.avail_phys,
        }
    }

    /// The memory with the figures of a status query.
    pub fn new(status: &MemoryStatus) -> (r: Self)
        ensures
            r.status() == *status,
    {
        MemoryInfo {
            memory_load: status.memory_load,
            total_phys: status.total_phys,
            avail_phys: status.avail_phys,
        }
    }

    /// Takes the figures of a newer status query.
    pub fn update(&mut self, status: &MemoryStatus)
        ensures
            final(self).status() == *status,
    {
        self.memory_load = status.memory_load;
        self.total_phys = status.total_phys;
        self.avail_phys = status.avail_phys;
    }

    /// Percentage of the physical memory in use.
    pub fn memory_load(&self) -> (r: u32)
        ensures
            r == self.status().memory_load,
    {
        self.memory_load
    }

    /// Physical memory, in bytes.
    pub fn total_phys(&self) -> (r: u64)
        ensures
            r == self.status().total_phys,
    {
        self.total_phys
    }

    /// Physical memory available, in bytes.
    pub fn avail_phys(&self) -> (r: u64)
        ensures
            r == self.status().avail_phys,
    {
        self.avail_phys
    }
}

} // verus!
