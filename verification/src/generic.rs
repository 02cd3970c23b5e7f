//! The partition initializer for chips that have the architecture's Security
//! Attribution Unit and nothing finer: the range of gateway veneers is marked
//! as callable from the non-secure world, non-secure flash and RAM as
//! non-secure, and every other address stays secure.
//!
//! The initializer works on a model of the unit's regions and records each
//! write, so that the same writes can be replayed on the hardware.

use crate::memory::{Domain, MemoryLayout, MemoryRegion};
use vstd::prelude::*;

verus! {

/// One region of the unit: the addresses from `base_address` up to and with
/// `limit_address`, and the world that they belong to.
#[derive(Clone, Copy, Debug, PartialEq, Eq, Structural)]
pub struct SauRegion {
    pub base_address: u32,
    pub limit_address: u32,
    pub attribute: Domain,
}

/// Why the unit refuses a region.
#[derive(Clone, Copy, Debug, PartialEq, Eq, Structural)]
pub enum SauError {
    /// The unit has no region of that number.
    RegionNumberTooBig,
    /// The base address is not a multiple of 32.
    WrongBaseAddress,
    /// The limit address is not one below a multiple of 32, or the range ends
    /// at address zero, so that it has no limit address.
    WrongLimitAddress,
}

/// One write to the hardware, in the order in which the initializer makes
/// them.
#[derive(Clone, Copy, Debug, PartialEq, Eq, Structural)]
pub enum SauWrite {
    /// A region is set.
    Region { number: u8, region: SauRegion },
    /// The unit is switched on.
    Enable,
    /// The main stack pointer of the non-secure world.
    NonSecureStackPointer { address: u32 },
    /// An instruction synchronization barrier.
    InstructionBarrier,
    /// A data synchronization barrier.
    DataBarrier,
    /// The call that has the non-secure world clear and fill its own memory.
    InitializeNonSecureData,
}

/// The Security Attribution Unit, and what else the initializer sets.
#[derive(Debug)]
pub struct Sau {
    pub regions: Vec<SauRegion>,
    pub enabled: bool,
    pub nonsecure_stack_pointer: u32,
    pub nonsecure_data_initialized: bool,
}

/// What the unit holds.
pub struct SauState {
    pub regions: Seq<SauRegion>,
    pub enabled: bool,
    pub nonsecure_stack_pointer: u32,
    pub nonsecure_data_initialized: bool,
}

impl View for Sau {
    type V = SauState;

    open spec fn view(&self) -> SauState {
        SauState {
            regions: self.regions@,
            enabled: self.enabled,
            nonsecure_stack_pointer: self.nonsecure_stack_pointer,
            nonsecure_data_initialized: self.nonsecure_data_initialized,
        }
    }
}

/// The number of the region that holds callable flash.
pub const CALLABLE_FLASH_REGION: u8 = 0;

/// The number of the region that holds non-secure flash.
pub const NONSECURE_FLASH_REGION: u8 = 1;

/// The number of the region that holds non-secure RAM.
pub const NONSECURE_RAM_REGION: u8 = 2;

/// How many regions the initializer sets.
pub const PLANNED_REGIONS: u8 = 3;

/// The range and the world of the region of a given number.
pub open spec fn planned(layout: MemoryLayout, number: int) -> (MemoryRegion, Domain) {
    if number == 0 {
        (layout.callable_flash, Domain::NonSecureCallable)
    } else if number == 1 {
        (layout.nonsecure_flash, Domain::NonSecure)
    } else {
        (layout.nonsecure_ram, Domain::NonSecure)
    }
}

/// The region that the unit is given for a range: its last address is the
/// limit.
pub open spec fn region_for(range: MemoryRegion, attribute: Domain) -> SauRegion {
    SauRegion {
        base_address: range.start,
        limit_address: (range.end - 1) as u32,
        attribute,
    }
}

/// Why the unit refuses a range as its region of a given number, if it does.
pub open spec fn region_refusal(range: MemoryRegion, number: int, available: int) -> Option<
    SauError,
> {
    if number >= available {
        Some(SauError::RegionNumberTooBig)
    } else if range.start as int % 32 != 0 {
        Some(SauError::WrongBaseAddress)
    } else if range.end as int % 32 != 0 || range.end == 0 {
        Some(SauError::WrongLimitAddress)
    } else {
        None
    }
}

/// Why the first `n` regions of a layout are refused, if one of them is: for
/// the first region that the unit refuses.
pub open spec fn refusal_below(layout: MemoryLayout, available: int, n: int) -> Option<SauError>
    decreases n,
{
    if n <= 0 {
        None
    } else {
        match refusal_below(layout, available, n - 1) {
            Some(error) => Some(error),
            None => region_refusal(planned(layout, n - 1).0, n - 1, available),
        }
    }
}

/// Why a layout is refused by a unit with a number of regions, if it is.
pub open spec fn refusal(layout: MemoryLayout, available: int) -> Option<SauError> {
    refusal_below(layout, available, PLANNED_REGIONS as int)
}

/// The unit after the initializer has run on an accepted layout: its first
/// three regions hold callable flash, non-secure flash and non-secure RAM,
/// the others are as they were; the unit is on, the
/// non-secure stack pointer is at the end of non-secure RAM, and the
/// non-secure world's memory is set up.
pub open spec fn partitioned(layout: MemoryLayout, hardware: SauState) -> SauState {
    SauState {
        regions: Seq::new(
            hardware.regions.len(),
            |number: int|
                if number < PLANNED_REGIONS {
                    region_for(planned(layout, number).0, planned(layout, number).1)
                } else {
                    hardware.regions[number]
                },
        ),
        enabled: true,
        nonsecure_stack_pointer: layout.nonsecure_ram.end,
        nonsecure_data_initialized: true,
    }
}

/// All writes of the initializer, in order: the three regions, the switch,
/// the non-secure stack pointer, the two barriers, and the call that sets up
/// the non-secure world's memory.
pub open spec fn write_sequence(layout: MemoryLayout) -> Seq<SauWrite> {
    seq![
        SauWrite::Region { number: 0, region: region_for(planned(layout, 0).0, planned(layout, 0).1) },
        SauWrite::Region { number: 1, region: region_for(planned(layout, 1).0, planned(layout, 1).1) },
        SauWrite::Region { number: 2, region: region_for(planned(layout, 2).0, planned(layout, 2).1) },
        SauWrite::Enable,
        SauWrite::NonSecureStackPointer { address: layout.nonsecure_ram.end },
        SauWrite::InstructionBarrier,
        SauWrite::DataBarrier,
        SauWrite::InitializeNonSecureData,
    ]
}

/// The world that the unit gives an address to. An address in no region that
/// is not secure belongs to the secure world; so does an address that two
/// such regions share.
pub open spec fn attribution(hardware: SauState, address: int) -> Domain {
    if !hardware.enabled {
        Domain::Secure
    } else if exists|i: int, j: int|
        0 <= i < j < hardware.regions.len() && region_claims(hardware.regions[i], address)
            && region_claims(hardware.regions[j], address) {
        Domain::Secure
    } else if exists|i: int|
        0 <= i < hardware.regions.len() && region_claims(hardware.regions[i], address) {
        hardware.regions[choose|i: int|
            0 <= i < hardware.regions.len() && region_claims(
                hardware.regions[i],
                address,
            )].attribute
    } else {
        Domain::Secure
    }
}

/// Whether a region takes an address from the secure world.
pub open spec fn region_claims(region: SauRegion, address: int) -> bool {
    region.attribute != Domain::Secure && region.base_address <= address <= region.limit_address
}

fn check_region(range: &MemoryRegion, number: u8, available: usize) -> (refused: Option<SauError>)
    ensures
        refused == region_refusal(*range, number as int, available as int),
{
    if number as usize >= available {
        Some(SauError::RegionNumberTooBig)
    } else if range.start % 32 != 0 {
        Some(SauError::WrongBaseAddress)
    } else if range.end % 32 != 0 || range.end == 0 {
        Some(SauError::WrongLimitAddress)
    } else {
        None
    }
}

/// Checks a layout against the unit that it is meant for, before any region
/// is written.
pub fn validate(layout: &MemoryLayout, hardware: &Sau) -> (checked: Result<(), SauError>)
    ensures
        match checked {
            Ok(()) => refusal(*layout, hardware@.regions.len() as int) is None,
            Err(error) => refusal(*layout, hardware@.regions.len() as int) == Some(error),
        },
{
    reveal_with_fuel(refusal_below, 5);
    let available = hardware.regions.len();
    match check_region(&layout.callable_flash, CALLABLE_FLASH_REGION, available) {
        Some(error) => {
            return Err(error);
        },
        None => {},
    }
    match check_region(&layout.nonsecure_flash, NONSECURE_FLASH_REGION, available) {
        Some(error) => {
            return Err(error);
        },
        None => {},
    }
    match check_region(&layout.nonsecure_ram, NONSECURE_RAM_REGION, available) {
        Some(error) => {
            return Err(error);
        },
        None => {},
    }
    Ok(())
}

fn set_region(
    hardware: &mut Sau,
    writes: &mut Vec<SauWrite>,
    number: u8,
    range: &MemoryRegion,
    attribute: Domain,
)
    requires
        region_refusal(*range, number as int, old(hardware)@.regions.len() as int) is None,
    ensures
        final(hardware)@ == (SauState {
            regions: old(hardware)@.regions.update(number as int, region_for(*range, attribute)),
            ..old(hardware)@
        }),
        final(writes)@ == old(writes)@.push(
            SauWrite::Region { number, region: region_for(*range, attribute) },
        ),
{
    let region = SauRegion {
        base_address: range.start,
        limit_address: range.end - 1,
        attribute,
    };
    hardware.regions.set(number as usize, region);
    writes.push(SauWrite::Region { number, region });
}

/// Partitions the chip: checks the layout, then sets the three regions,
/// switches the unit on, sets the non-secure stack pointer to the end of
/// non-secure RAM, issues the barriers, has the non-secure world set up its
/// memory, and returns every write that it made, in order. A layout that is
/// refused changes nothing.
pub fn initialize(layout: &MemoryLayout, hardware: &mut Sau) -> (result: Result<
    Vec<SauWrite>,
    SauError,
>)
    ensures
        match result {
            Ok(writes) => {
                &&& refusal(*layout, old(hardware)@.regions.len() as int) is None
                &&& final(hardware)@ == partitioned(*layout, old(hardware)@)
                &&& writes@ == write_sequence(*layout)
            },
            Err(error) => {
                &&& refusal(*layout, old(hardware)@.regions.len() as int) == Some(error)
                &&& final(hardware)@ == old(hardware)@
            },
        },
{
    match validate(layout, hardware) {
        Ok(()) => {},
        Err(error) => {
            return Err(error);
        },
    }
    proof {
        reveal_with_fuel(refusal_below, 5);
    }
    let mut writes: Vec<SauWrite> = Vec::new();
    set_region(
        hardware,
        &mut writes,
        CALLABLE_FLASH_REGION,
        &layout.callable_flash,
        Domain::NonSecureCallable,
    );
    set_region(
        hardware,
        &mut writes,
        NONSECURE_FLASH_REGION,
        &layout.nonsecure_flash,
        Domain::NonSecure,
    );
    set_region(
        hardware,
        &mut writes,
        NONSECURE_RAM_REGION,
        &layout.nonsecure_ram,
        Domain::NonSecure,
    );
    hardware.enabled = true;
    writes.push(SauWrite::Enable);
    hardware.nonsecure_stack_pointer = layout.nonsecure_ram.end;
    writes.push(SauWrite::NonSecureStackPointer { address: layout.nonsecure_ram.end });
    writes.push(SauWrite::InstructionBarrier);
    writes.push(SauWrite::DataBarrier);
    hardware.nonsecure_data_initialized = true;
    writes.push(SauWrite::InitializeNonSecureData);
    assert(hardware@.regions =~= partitioned(*layout, old(hardware)@).regions);
    assert(writes@ =~= write_sequence(*layout));
    Ok(writes)
}

/// Partitioning is idempotent: a layout that was accepted is accepted again
/// on the unit that it left, and leaves it as it is.
pub proof fn lemma_partition_idempotent(layout: MemoryLayout, hardware: SauState)
    requires
        refusal(layout, hardware.regions.len() as int) is None,
    ensures
        refusal(layout, partitioned(layout, hardware).regions.len() as int) is None,
        partitioned(layout, partitioned(layout, hardware)) == partitioned(layout, hardware),
{
    let once = partitioned(layout, hardware);
    let twice = partitioned(layout, once);
    assert(twice.regions =~= once.regions);
}

/// After the initializer has run on a unit whose other regions claim
/// nothing, the unit gives every address to the world that the layout names:
/// the callable and the non-secure ranges as declared, every other address to
/// the secure world.
pub proof fn lemma_attribution_follows_layout(
    layout: MemoryLayout,
    hardware: SauState,
    address: int,
)
    requires
        refusal(layout, hardware.regions.len() as int) is None,
        !layout.has_overlap(),
        forall|i: int|
            PLANNED_REGIONS <= i < hardware.regions.len() ==> (
            #[trigger] hardware.regions[i]).attribute == Domain::Secure,
    ensures
        attribution(partitioned(layout, hardware), address) == match layout.domain_of(address) {
            Some(Domain::NonSecureCallable) => Domain::NonSecureCallable,
            Some(Domain::NonSecure) => Domain::NonSecure,
            _ => Domain::Secure,
        },
{
    reveal_with_fuel(refusal_below, 5);
    let after = partitioned(layout, hardware);
    let ranges = layout.regions();
    assert(after.regions.len() >= 3);
    assert forall|i: int| 0 <= i < after.regions.len() implies (region_claims(
        #[trigger] after.regions[i],
        address,
    ) <==> i < 3 && planned(layout, i).0.holds(address)) by {}
    assert(planned(layout, 0).0 == ranges[1]);
    assert(planned(layout, 1).0 == ranges[2]);
    assert(planned(layout, 2).0 == ranges[4]);
    assert(layout.secure_flash == ranges[0]);
    assert(layout.secure_ram == ranges[3]);
    assert forall|i: int, j: int| 0 <= i < j < 5 implies !(ranges[i].holds(address)
        && ranges[j].holds(address)) by {
        assert(!(#[trigger] ranges[i]).overlaps(#[trigger] ranges[j]));
    }
    assert(!(ranges[0].holds(address) && ranges[1].holds(address)));
    assert(!(ranges[0].holds(address) && ranges[2].holds(address)));
    assert(!(ranges[0].holds(address) && ranges[4].holds(address)));
    assert(!(ranges[1].holds(address) && ranges[2].holds(address)));
    assert(!(ranges[1].holds(address) && ranges[3].holds(address)));
    assert(!(ranges[1].holds(address) && ranges[4].holds(address)));
    assert(!(ranges[2].holds(address) && ranges[3].holds(address)));
    assert(!(ranges[2].holds(address) && ranges[4].holds(address)));
    assert(!(ranges[3].holds(address) && ranges[4].holds(address)));
    let held = |i: int| planned(layout, i).0.holds(address);
    assert(!(held(0) && held(1)) && !(held(0) && held(2)) && !(held(1) && held(2)));
    assert forall|i: int, j: int| 0 <= i < j < after.regions.len() implies !(region_claims(
        after.regions[i],
        address,
    ) && region_claims(after.regions[j], address)) by {
        if region_claims(after.regions[i], address) && region_claims(after.regions[j], address) {
            assert(i < 3 && j < 3 && held(i) && held(j));
        }
    }
    if exists|i: int| 0 <= i < after.regions.len() && region_claims(after.regions[i], address) {
        let i = choose|i: int|
            0 <= i < after.regions.len() && region_claims(after.regions[i], address);
        assert(i < 3 && held(i));
        assert(after.regions[i].attribute == planned(layout, i).1);
    } else {
        assert(!region_claims(after.regions[0], address));
        assert(!region_claims(after.regions[1], address));
        assert(!region_claims(after.regions[2], address));
        assert(!held(0) && !held(1) && !held(2));
    }
}

/// The unit after one write. A write to a region that the unit does not have
/// changes nothing.
pub open spec fn applied(hardware: SauState, write: SauWrite) -> SauState {
    match write {
        SauWrite::Region { number, region } => if number < hardware.regions.len() {
            SauState { regions: hardware.regions.update(number as int, region), ..hardware }
        } else {
            hardware
        },
        SauWrite::Enable => SauState { enabled: true, ..hardware },
        SauWrite::NonSecureStackPointer { address } => SauState {
            nonsecure_stack_pointer: address,
            ..hardware
        },
        SauWrite::InstructionBarrier => hardware,
        SauWrite::DataBarrier => hardware,
        SauWrite::InitializeNonSecureData => SauState {
            nonsecure_data_initialized: true,
            ..hardware
        },
    }
}

/// The unit after a sequence of writes, made in order.
pub open spec fn applied_all(hardware: SauState, writes: Seq<SauWrite>) -> SauState
    decreases writes.len(),
{
    if writes.len() == 0 {
        hardware
    } else {
        applied(applied_all(hardware, writes.drop_last()), writes.last())
    }
}

impl Sau {
    /// Makes one write on the unit.
    pub fn apply(&mut self, write: SauWrite)
        ensures
            final(self)@ == applied(old(self)@, write),
    {
        match write {
            SauWrite::Region { number, region } => {
                if (number as usize) < self.regions.len() {
                    self.regions.set(number as usize, region);
                }
            },
            SauWrite::Enable => {
                self.enabled = true;
            },
            SauWrite::NonSecureStackPointer { address } => {
                self.nonsecure_stack_pointer = address;
            },
            SauWrite::InstructionBarrier => {},
            SauWrite::DataBarrier => {},
            SauWrite::InitializeNonSecureData => {
                self.nonsecure_data_initialized = true;
            },
        }
    }

    /// Makes a sequence of writes on the unit, in order.
    pub fn replay(&mut self, writes: &[SauWrite])
        ensures
            final(self)@ == applied_all(old(self)@, writes@),
    {
        let mut index: usize = 0;
        while index < writes.len()
            invariant
                index <= writes.len(),
                self@ == applied_all(old(self)@, writes@.take(index as int)),
            decreases writes.len() - index,
        {
            proof {
                let upto = writes@.take(index as int + 1);
                assert(upto.drop_last() == writes@.take(index as int));
                assert(upto.last() == writes@[index as int]);
            }
            self.apply(writes[index]);
            index += 1;
        }
        proof {
            assert(writes@.take(writes.len() as int) == writes@);
        }
    }
}

/// The writes that the initializer lists are the whole of what it does:
/// made in order on the unit that it found, they leave the unit partitioned.
pub proof fn lemma_writes_partition(layout: MemoryLayout, hardware: SauState)
    requires
        refusal(layout, hardware.regions.len() as int) is None,
    ensures
        applied_all(hardware, write_sequence(layout)) == partitioned(layout, hardware),
{
    reveal_with_fuel(refusal_below, 5);
    reveal_with_fuel(applied_all, 10);
    let w8 = write_sequence(layout);
    let w7 = w8.drop_last();
    let w6 = w7.drop_last();
    let w5 = w6.drop_last();
    let w4 = w5.drop_last();
    let w3 = w4.drop_last();
    let w2 = w3.drop_last();
    let w1 = w2.drop_last();
    assert(w1.drop_last() =~= Seq::<SauWrite>::empty());
    assert(applied_all(hardware, w8).regions =~= partitioned(layout, hardware).regions);
}

impl SauRegion {
    /// Whether the region takes an address from the secure world.
    pub fn claims(&self, address: u32) -> (claimed: bool)
        ensures
            claimed == region_claims(*self, address as int),
    {
        self.attribute != Domain::Secure && self.base_address <= address && address
            <= self.limit_address
    }
}

impl Sau {
    /// The world that the unit gives an address to.
    pub fn world_of(&self, address: u32) -> (world: Domain)
        ensures
            world == attribution(self@, address as int),
    {
        if !self.enabled {
            return Domain::Secure;
        }
        let mut claimant: Option<usize> = None;
        let mut index: usize = 0;
        while index < self.regions.len()
            invariant
                index <= self.regions.len(),
                self.enabled,
                match claimant {
                    Some(found) => {
                        &&& found < index
                        &&& region_claims(self.regions@[found as int], address as int)
                        &&& forall|i: int|
                            0 <= i < index && i != found ==> !region_claims(
                                #[trigger] self.regions@[i],
                                address as int,
                            )
                    },
                    None => forall|i: int|
                        0 <= i < index ==> !region_claims(
                            #[trigger] self.regions@[i],
                            address as int,
                        ),
                },
            decreases self.regions.len() - index,
        {
            if self.regions[index].claims(address) {
                match claimant {
                    Some(found) => {
                        assert(region_claims(self@.regions[found as int], address as int)
                            && region_claims(self@.regions[index as int], address as int));
                        return Domain::Secure;
                    },
                    None => {
                        claimant = Some(index);
                    },
                }
            }
            index += 1;
        }
        match claimant {
            Some(found) => {
                proof {
                    let regions = self@.regions;
                    assert(region_claims(regions[found as int], address as int));
                    let chosen = choose|i: int|
                        0 <= i < regions.len() && region_claims(regions[i], address as int);
                    assert(chosen == found);
                }
                self.regions[found].attribute
            },
            None => Domain::Secure,
        }
    }
}

} // verus!
