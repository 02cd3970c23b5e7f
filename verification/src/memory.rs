//! The memory layout of a partitioned image: which address ranges belong to
//! the secure world, which to the non-secure world, and which the non-secure
//! world may call into.

use vstd::prelude::*;

verus! {

/// The world that an address belongs to.
#[derive(Clone, Copy, Debug, PartialEq, Eq, Structural)]
pub enum Domain {
    Secure,
    NonSecure,
    NonSecureCallable,
}

/// A range of addresses, from `start` up to and without `end`. A range whose
/// end is not above its start holds no address.
#[derive(Clone, Copy, Debug, PartialEq, Eq, Structural)]
pub struct MemoryRegion {
    pub start: u32,
    pub end: u32,
}

impl MemoryRegion {
    /// Whether the range holds the address.
    pub open spec fn holds(self, address: int) -> bool {
        self.start <= address < self.end
    }

    /// The number of bytes in the range.
    pub open spec fn size(self) -> int {
        if self.start < self.end {
            self.end - self.start
        } else {
            0
        }
    }

    /// Whether two ranges share an address.
    pub open spec fn overlaps(self, other: MemoryRegion) -> bool {
        self.start < self.end && other.start < other.end && self.start < other.end && other.start
            < self.end
    }

    pub fn new(start: u32, end: u32) -> (region: MemoryRegion)
        ensures
            region.start == start,
            region.end == end,
    {
        MemoryRegion { start, end }
    }

    /// Whether the range holds the address.
    pub fn contains(&self, address: u64) -> (held: bool)
        ensures
            held == self.holds(address as int),
    {
        self.start as u64 <= address && address < self.end as u64
    }

    /// The number of bytes in the range.
    pub fn len(&self) -> (size: u32)
        ensures
            size == self.size(),
    {
        if self.start < self.end {
            self.end - self.start
        } else {
            0
        }
    }

    /// Whether two ranges share an address.
    pub fn intersects(&self, other: &MemoryRegion) -> (shared: bool)
        ensures
            shared == self.overlaps(*other),
            shared == exists|address: int| self.holds(address) && other.holds(address),
    {
        let shared = self.start < self.end && other.start < other.end && self.start < other.end
            && other.start < self.end;
        proof {
            if shared {
                let address = if self.start >= other.start {
                    self.start as int
                } else {
                    other.start as int
                };
                assert(self.holds(address) && other.holds(address));
            }
        }
        shared
    }
}

/// The ranges that the linker lays out for the two worlds.
#[derive(Clone, Copy, Debug, PartialEq, Eq, Structural)]
pub struct MemoryLayout {
    /// The flash of the secure world.
    pub secure_flash: MemoryRegion,
    /// The part of secure flash that holds the gateway veneers.
    pub callable_flash: MemoryRegion,
    /// The flash of the non-secure world.
    pub nonsecure_flash: MemoryRegion,
    /// The RAM of the secure world.
    pub secure_ram: MemoryRegion,
    /// The RAM of the non-secure world.
    pub nonsecure_ram: MemoryRegion,
}

impl MemoryLayout {
    /// The world that the layout gives an address to, if it names the address
    /// at all. Where ranges overlap, the callable range comes first, then the
    /// secure ones.
    pub open spec fn domain_of(self, address: int) -> Option<Domain> {
        if self.callable_flash.holds(address) {
            Some(Domain::NonSecureCallable)
        } else if self.secure_flash.holds(address) || self.secure_ram.holds(address) {
            Some(Domain::Secure)
        } else if self.nonsecure_flash.holds(address) || self.nonsecure_ram.holds(address) {
            Some(Domain::NonSecure)
        } else {
            None
        }
    }

    /// Whether two of the ranges share an address.
    pub open spec fn has_overlap(self) -> bool {
        let regions = self.regions();
        exists|i: int, j: int|
            0 <= i < j < regions.len() && (#[trigger] regions[i]).overlaps(#[trigger] regions[j])
    }

    /// The five ranges, flash before RAM.
    pub open spec fn regions(self) -> Seq<MemoryRegion> {
        seq![
            self.secure_flash,
            self.callable_flash,
            self.nonsecure_flash,
            self.secure_ram,
            self.nonsecure_ram,
        ]
    }

    /// The world that the layout gives an address to.
    pub fn domain(&self, address: u32) -> (domain: Option<Domain>)
        ensures
            domain == self.domain_of(address as int),
    {
        let address = address as u64;
        if self.callable_flash.contains(address) {
            Some(Domain::NonSecureCallable)
        } else if self.secure_flash.contains(address) || self.secure_ram.contains(address) {
            Some(Domain::Secure)
        } else if self.nonsecure_flash.contains(address) || self.nonsecure_ram.contains(address) {
            Some(Domain::NonSecure)
        } else {
            None
        }
    }

    /// Whether two of the ranges share an address.
    pub fn overlapping(&self) -> (found: bool)
        ensures
            found == self.has_overlap(),
    {
        let regions = [
            self.secure_flash,
            self.callable_flash,
            self.nonsecure_flash,
            self.secure_ram,
            self.nonsecure_ram,
        ];
        assert(regions@ =~= self.regions());
        let mut first: usize = 0;
        while first < 5
            invariant
                first <= 5,
                regions@ == self.regions(),
                forall|i: int, j: int|
                    0 <= i < j < 5 && i < first ==> !(#[trigger] regions@[i]).overlaps(
                        #[trigger] regions@[j],
                    ),
            decreases 5 - first,
        {
            let mut second: usize = first + 1;
            while second < 5
                invariant
                    first < 5,
                    first < second <= 5,
                    regions@ == self.regions(),
                    forall|i: int, j: int|
                        0 <= i < j < 5 && i < first ==> !(#[trigger] regions@[i]).overlaps(
                            #[trigger] regions@[j],
                        ),
                    forall|j: int|
                        first < j < second ==> !regions@[first as int].overlaps(
                            #[trigger] regions@[j],
                        ),
                decreases 5 - second,
            {
                if regions[first].intersects(&regions[second]) {
                    return true;
                }
                second += 1;
            }
            first += 1;
        }
        false
    }
}

} // verus!
