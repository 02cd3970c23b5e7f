//! The partition initializer for chips with Nordic's System Protection Unit,
//! which attributes flash and RAM region by region, and peripherals, pins and
//! DPPI channels one by one.
//!
//! The initializer works on a model of the unit's registers and records each
//! register write, so that the same writes can be replayed on the hardware.

use crate::memory::{MemoryLayout, MemoryRegion};
use vstd::prelude::*;

verus! {

/// What a chip fixes about its regions.
#[derive(Clone, Copy, Debug, PartialEq, Eq, Structural)]
pub struct Chip {
    /// The size of one flash region, in bytes.
    pub flash_region_size: u32,
    /// The size of one RAM region, in bytes.
    pub ram_region_size: u32,
    /// The address of the first RAM region.
    pub ram_start: u32,
    /// The largest range of gateway veneers that the chip can mark as callable
    /// from the non-secure world, in bytes.
    pub max_callable_size: u32,
}

/// The smallest range that the unit can mark as callable, in bytes.
pub const MIN_CALLABLE_WINDOW: u32 = 32;

/// The number of flash regions that the callable region register can name.
pub const CALLABLE_REGIONS: u32 = 64;

impl Chip {
    /// A chip has regions of some size.
    pub open spec fn well_formed(self) -> bool {
        self.flash_region_size > 0 && self.ram_region_size > 0
    }

    /// The nRF9160: flash in regions of 32 KiB, RAM in regions of 8 KiB.
    pub fn nrf9160() -> (chip: Chip)
        ensures
            chip.well_formed(),
            chip.flash_region_size == 32 * 1024,
            chip.ram_region_size == 8 * 1024,
            chip.ram_start == 0x2000_0000,
            chip.max_callable_size == 4096,
    {
        Chip {
            flash_region_size: 32 * 1024,
            ram_region_size: 8 * 1024,
            ram_start: 0x2000_0000,
            max_callable_size: 4096,
        }
    }

    /// The nRF5340 application core: flash in regions of 16 KiB, RAM in
    /// regions of 8 KiB.
    pub fn nrf5340() -> (chip: Chip)
        ensures
            chip.well_formed(),
            chip.flash_region_size == 16 * 1024,
            chip.ram_region_size == 8 * 1024,
            chip.ram_start == 0x2000_0000,
            chip.max_callable_size == 4096,
    {
        Chip {
            flash_region_size: 16 * 1024,
            ram_region_size: 8 * 1024,
            ram_start: 0x2000_0000,
            max_callable_size: 4096,
        }
    }

    /// The address at which a flash region starts.
    pub open spec fn flash_address(self, index: int) -> int {
        index * self.flash_region_size
    }

    /// The address at which a RAM region starts.
    pub open spec fn ram_address(self, index: int) -> int {
        self.ram_start + index * self.ram_region_size
    }
}

/// A peripheral that is handed to the non-secure world, known by its number
/// in the unit's table of peripherals.
#[derive(Clone, Copy, Debug, PartialEq, Eq, Structural)]
pub struct NonSecurePeripheral {
    id: usize,
}

impl NonSecurePeripheral {
    /// The peripheral's number.
    pub closed spec fn number(self) -> usize {
        self.id
    }

    pub fn new(id: usize) -> (peripheral: NonSecurePeripheral)
        ensures
            peripheral.number() == id,
    {
        NonSecurePeripheral { id }
    }

    pub fn id(&self) -> (id: usize)
        ensures
            id == self.number(),
    {
        self.id
    }
}

/// What a flash or RAM region permits, and which world it belongs to.
#[derive(Clone, Copy, Debug, PartialEq, Eq, Structural)]
pub struct RegionPermissions {
    pub execute: bool,
    pub read: bool,
    pub write: bool,
    pub secure: bool,
}

/// Which world a peripheral and its DMA belong to.
#[derive(Clone, Copy, Debug, PartialEq, Eq, Structural)]
pub struct PeripheralPermissions {
    pub secure: bool,
    pub dma_secure: bool,
}

/// A region that the secure world owns: everything permitted.
pub open spec fn secure_region() -> RegionPermissions {
    RegionPermissions { execute: true, read: true, write: true, secure: true }
}

/// A region that the non-secure world owns: everything permitted.
pub open spec fn nonsecure_region() -> RegionPermissions {
    RegionPermissions { execute: true, read: true, write: true, secure: false }
}

/// A peripheral that the non-secure world owns, with its DMA.
pub open spec fn nonsecure_peripheral() -> PeripheralPermissions {
    PeripheralPermissions { secure: false, dma_secure: false }
}

/// The value of the SAU control register that disables the SAU and makes all
/// memory non-secure to it, so that the System Protection Unit decides alone.
pub const SAU_ALL_NONSECURE: u32 = 0b10;

/// One write to the hardware, in the order in which the initializer makes
/// them.
#[derive(Clone, Copy, Debug, PartialEq, Eq, Structural)]
pub enum RegisterWrite {
    /// The permissions of one flash region.
    FlashRegion { index: usize, permissions: RegionPermissions },
    /// The permissions of one RAM region.
    RamRegion { index: usize, permissions: RegionPermissions },
    /// The size register of the callable range of flash.
    FlashCallableSize { value: u32 },
    /// The region register of the callable range of flash.
    FlashCallableRegion { value: u32 },
    /// A peripheral and its DMA become non-secure.
    Peripheral { id: usize },
    /// One pin becomes non-secure: its bit in the port's register is cleared.
    Pin { port: usize, pin: u32 },
    /// One DPPI channel becomes non-secure: its bit is cleared.
    DppiChannel { port: usize, channel: u32 },
    /// The SAU control register.
    SauControl { value: u32 },
    /// The main stack pointer of the non-secure world.
    NonSecureStackPointer { address: u32 },
    /// An instruction synchronization barrier.
    InstructionBarrier,
    /// A data synchronization barrier.
    DataBarrier,
    /// The call that has the non-secure world clear and fill its own memory.
    InitializeNonSecureData,
}

/// The registers of the System Protection Unit, and what else the
/// initializer sets.
#[derive(Debug)]
pub struct Spu {
    pub flash_regions: Vec<RegionPermissions>,
    pub ram_regions: Vec<RegionPermissions>,
    pub flash_callable_size: u32,
    pub flash_callable_region: u32,
    pub peripherals: Vec<PeripheralPermissions>,
    pub gpio_ports: Vec<u32>,
    pub dppi: Vec<u32>,
    pub sau_control: u32,
    pub nonsecure_stack_pointer: u32,
    pub nonsecure_data_initialized: bool,
}

/// What the registers hold.
pub struct SpuState {
    pub flash_regions: Seq<RegionPermissions>,
    pub ram_regions: Seq<RegionPermissions>,
    pub flash_callable_size: u32,
    pub flash_callable_region: u32,
    pub peripherals: Seq<PeripheralPermissions>,
    pub gpio_ports: Seq<u32>,
    pub dppi: Seq<u32>,
    pub sau_control: u32,
    pub nonsecure_stack_pointer: u32,
    pub nonsecure_data_initialized: bool,
}

impl View for Spu {
    type V = SpuState;

    open spec fn view(&self) -> SpuState {
        SpuState {
            flash_regions: self.flash_regions@,
            ram_regions: self.ram_regions@,
            flash_callable_size: self.flash_callable_size,
            flash_callable_region: self.flash_callable_region,
            peripherals: self.peripherals@,
            gpio_ports: self.gpio_ports@,
            dppi: self.dppi@,
            sau_control: self.sau_control,
            nonsecure_stack_pointer: self.nonsecure_stack_pointer,
            nonsecure_data_initialized: self.nonsecure_data_initialized,
        }
    }
}

/// A boundary of the memory layout that must lie on a region boundary.
#[derive(Clone, Copy, Debug, PartialEq, Eq, Structural)]
pub enum Boundary {
    SecureFlashStart,
    CallableFlashEnd,
    NonSecureFlashStart,
    NonSecureFlashEnd,
    SecureRamStart,
    SecureRamEnd,
    NonSecureRamStart,
    NonSecureRamEnd,
}

/// Why a configuration is refused.
#[derive(Clone, Copy, Debug, PartialEq, Eq, Structural)]
pub enum ConfigError {
    /// A boundary does not lie on a region boundary.
    Misaligned { boundary: Boundary },
    /// Two ranges of the layout share an address.
    Overlap,
    /// The range of gateway veneers is larger than the chip can mark as
    /// callable.
    CallableRegionTooLarge,
    /// The range of gateway veneers is smaller than the smallest range that
    /// the unit can mark as callable.
    CallableRegionTooSmall,
    /// The range of gateway veneers lies in a flash region that the callable
    /// region register cannot name.
    CallableRegionOutOfReach,
    /// The flash region that holds the gateway veneers is not secure.
    CallableRegionNotSecure,
    /// The range that the unit would mark as callable takes addresses from
    /// secure or non-secure flash, or the range of gateway veneers does not
    /// end where its flash region ends.
    CallableRegionSpills,
    /// The unit has no peripheral of that number.
    UnknownPeripheral { id: usize },
    /// The unit has no such port, or the port no such pin.
    UnknownPin { port: usize, pin: u32 },
    /// The unit has no such DPPI port, or the port no such channel.
    UnknownChannel { port: usize, channel: u32 },
}

/// The boundary that is checked at a given place in the order of checks, with
/// its address and the region size that it must be a multiple of.
pub open spec fn boundary_check(chip: Chip, layout: MemoryLayout, place: int) -> (
    Boundary,
    u32,
    u32,
) {
    if place == 0 {
        (Boundary::SecureFlashStart, layout.secure_flash.start, chip.flash_region_size)
    } else if place == 1 {
        (Boundary::CallableFlashEnd, layout.callable_flash.end, chip.flash_region_size)
    } else if place == 2 {
        (Boundary::NonSecureFlashStart, layout.nonsecure_flash.start, chip.flash_region_size)
    } else if place == 3 {
        (Boundary::NonSecureFlashEnd, layout.nonsecure_flash.end, chip.flash_region_size)
    } else if place == 4 {
        (Boundary::SecureRamStart, layout.secure_ram.start, chip.ram_region_size)
    } else if place == 5 {
        (Boundary::SecureRamEnd, layout.secure_ram.end, chip.ram_region_size)
    } else if place == 6 {
        (Boundary::NonSecureRamStart, layout.nonsecure_ram.start, chip.ram_region_size)
    } else {
        (Boundary::NonSecureRamEnd, layout.nonsecure_ram.end, chip.ram_region_size)
    }
}

/// Whether the boundary at a place in the order of checks is off a region
/// boundary.
pub open spec fn is_misaligned(chip: Chip, layout: MemoryLayout, place: int) -> bool {
    let (_, address, size) = boundary_check(chip, layout, place);
    address as int % size as int != 0
}

/// The first misaligned boundary among the first `n` in the order of checks.
pub open spec fn first_misaligned_below(chip: Chip, layout: MemoryLayout, n: int) -> Option<
    Boundary,
>
    decreases n,
{
    if n <= 0 {
        None
    } else {
        match first_misaligned_below(chip, layout, n - 1) {
            Some(boundary) => Some(boundary),
            None => if is_misaligned(chip, layout, n - 1) {
                Some(boundary_check(chip, layout, n - 1).0)
            } else {
                None
            },
        }
    }
}

/// The first of the eight boundaries that is off a region boundary.
pub open spec fn first_misaligned(chip: Chip, layout: MemoryLayout) -> Option<Boundary> {
    first_misaligned_below(chip, layout, 8)
}

/// The range that the unit has to mark as callable: from the start of the
/// gateway veneers to the end of the flash region that they start in.
pub open spec fn callable_window(chip: Chip, layout: MemoryLayout) -> int {
    chip.flash_region_size - layout.callable_flash.start as int % chip.flash_region_size as int
}

/// Whether the range of gateway veneers is larger than the chip can mark as
/// callable: as the layout declares it, or up to the end of its flash
/// region.
pub open spec fn callable_too_large(chip: Chip, layout: MemoryLayout) -> bool {
    layout.callable_flash.size() > chip.max_callable_size || callable_window(chip, layout)
        > chip.max_callable_size
}

/// The number of bytes that a value of the callable size register stands
/// for: nothing for zero, 32 for one, and twice as much for each step up.
pub open spec fn window_bytes(size_register: nat) -> int
    decreases size_register,
{
    if size_register == 0 {
        0
    } else if size_register == 1 {
        32
    } else {
        2 * window_bytes((size_register - 1) as nat)
    }
}

/// The smallest value of the callable size register, from one up, that
/// stands for at least `window` bytes.
pub open spec fn size_register_for(window: nat) -> nat
    decreases window,
{
    if window <= 32 {
        1
    } else {
        1 + size_register_for((window + 1) / 2)
    }
}

/// The value of the callable size register: the smallest one that holds the
/// range from the start of the gateway veneers to the end of their flash
/// region.
pub open spec fn callable_size_register(chip: Chip, layout: MemoryLayout) -> int {
    size_register_for(callable_window(chip, layout) as nat) as int
}

/// The number of the flash region that holds the gateway veneers.
pub open spec fn callable_region(chip: Chip, layout: MemoryLayout) -> int {
    layout.callable_flash.start as int / chip.flash_region_size as int
}

/// The address behind the range that the unit marks as callable: the end of
/// the flash region that holds the gateway veneers.
pub open spec fn marked_high(chip: Chip, layout: MemoryLayout) -> int {
    (callable_region(chip, layout) + 1) * chip.flash_region_size
}

/// The first address of the range that the unit marks as callable.
pub open spec fn marked_low(chip: Chip, layout: MemoryLayout) -> int {
    marked_high(chip, layout) - window_bytes(callable_size_register(chip, layout) as nat)
}

/// Whether the addresses from `low` up to and without `high` hold an address
/// of a range.
pub open spec fn takes_from(low: int, high: int, range: MemoryRegion) -> bool {
    range.start < range.end && low < range.end && range.start < high
}

/// Whether the range that the unit marks as callable is another than the
/// layout allows: it takes an address from secure or from non-secure flash,
/// or the range of gateway veneers does not end with it.
pub open spec fn callable_spills(chip: Chip, layout: MemoryLayout) -> bool {
    let low = marked_low(chip, layout);
    let high = marked_high(chip, layout);
    ||| takes_from(low, high, layout.secure_flash)
    ||| takes_from(low, high, layout.nonsecure_flash)
    ||| (layout.callable_flash.start < layout.callable_flash.end && layout.callable_flash.end
        != high)
}

/// The value of the callable region register: the number of the flash region
/// that holds the gateway veneers.
pub open spec fn callable_region_register(chip: Chip, layout: MemoryLayout) -> u32 {
    (layout.callable_flash.start / chip.flash_region_size) & 0x3F
}

/// The first peripheral below `n` that the unit does not have.
pub open spec fn first_unknown_peripheral(
    peripherals: Seq<NonSecurePeripheral>,
    known: int,
    n: int,
) -> Option<usize>
    decreases n,
{
    if n <= 0 {
        None
    } else {
        match first_unknown_peripheral(peripherals, known, n - 1) {
            Some(id) => Some(id),
            None => if peripherals[n - 1].number() >= known {
                Some(peripherals[n - 1].number())
            } else {
                None
            },
        }
    }
}

/// Whether a port and a bit name a bit of one of `ports` registers of 32
/// bits.
pub open spec fn is_known_bit(line: (usize, u32), ports: int) -> bool {
    line.0 < ports && line.1 < 32
}

/// The first pin or channel below `n` that names no bit of the registers.
pub open spec fn first_unknown_bit(lines: Seq<(usize, u32)>, ports: int, n: int) -> Option<
    (usize, u32),
>
    decreases n,
{
    if n <= 0 {
        None
    } else {
        match first_unknown_bit(lines, ports, n - 1) {
            Some(line) => Some(line),
            None => if !is_known_bit(lines[n - 1], ports) {
                Some(lines[n - 1])
            } else {
                None
            },
        }
    }
}

/// What an initializer is asked to do.
pub struct Request {
    pub chip: Chip,
    pub layout: MemoryLayout,
    pub peripherals: Seq<NonSecurePeripheral>,
    pub pins: Seq<(usize, u32)>,
    pub dppi: Seq<(usize, u32)>,
}

/// Why a request is refused on given hardware, if it is. The checks run in
/// this order: the eight boundaries, the overlap of ranges, the size of the
/// callable range, its flash region, what it takes from other ranges, the
/// peripherals, the pins, the DPPI channels.
pub open spec fn refusal(request: Request, hardware: SpuState) -> Option<ConfigError> {
    let chip = request.chip;
    let layout = request.layout;
    if first_misaligned(chip, layout) is Some {
        Some(ConfigError::Misaligned { boundary: first_misaligned(chip, layout).unwrap() })
    } else if layout.has_overlap() {
        Some(ConfigError::Overlap)
    } else if callable_too_large(chip, layout) {
        Some(ConfigError::CallableRegionTooLarge)
    } else if callable_window(chip, layout) < MIN_CALLABLE_WINDOW {
        Some(ConfigError::CallableRegionTooSmall)
    } else if callable_region(chip, layout) >= CALLABLE_REGIONS {
        Some(ConfigError::CallableRegionOutOfReach)
    } else if wanted_flash(chip, layout, callable_region(chip, layout)) != Some(secure_region()) {
        Some(ConfigError::CallableRegionNotSecure)
    } else if callable_spills(chip, layout) {
        Some(ConfigError::CallableRegionSpills)
    } else {
        match first_unknown_peripheral(
            request.peripherals,
            hardware.peripherals.len() as int,
            request.peripherals.len() as int,
        ) {
            Some(id) => Some(ConfigError::UnknownPeripheral { id }),
            None => match first_unknown_bit(
                request.pins,
                hardware.gpio_ports.len() as int,
                request.pins.len() as int,
            ) {
                Some(line) => Some(ConfigError::UnknownPin { port: line.0, pin: line.1 }),
                None => match first_unknown_bit(
                    request.dppi,
                    hardware.dppi.len() as int,
                    request.dppi.len() as int,
                ) {
                    Some(line) => Some(
                        ConfigError::UnknownChannel { port: line.0, channel: line.1 },
                    ),
                    None => None,
                },
            },
        }
    }
}

/// What a flash region is set to: secure where it starts in secure or
/// callable flash, non-secure where it starts in non-secure flash. A region
/// that starts in none of them is left as it is.
pub open spec fn wanted_flash(chip: Chip, layout: MemoryLayout, index: int) -> Option<
    RegionPermissions,
> {
    let address = chip.flash_address(index);
    if layout.secure_flash.holds(address) || layout.callable_flash.holds(address) {
        Some(secure_region())
    } else if layout.nonsecure_flash.holds(address) {
        Some(nonsecure_region())
    } else {
        None
    }
}

/// What a RAM region is set to: secure where it starts in secure RAM,
/// non-secure where it starts in non-secure RAM. A region that starts in
/// none of them is left as it is.
pub open spec fn wanted_ram(chip: Chip, layout: MemoryLayout, index: int) -> Option<
    RegionPermissions,
> {
    let address = chip.ram_address(index);
    if layout.secure_ram.holds(address) {
        Some(secure_region())
    } else if layout.nonsecure_ram.holds(address) {
        Some(nonsecure_region())
    } else {
        None
    }
}

/// A register of 32 bits after the bits of the first `n` listed lines of that
/// port were cleared.
pub open spec fn cleared_bits(bits: u32, lines: Seq<(usize, u32)>, port: int, n: int) -> u32
    decreases n,
{
    if n <= 0 {
        bits
    } else {
        let before = cleared_bits(bits, lines, port, n - 1);
        if lines[n - 1].0 == port {
            before & !(1u32 << lines[n - 1].1)
        } else {
            before
        }
    }
}

/// Whether one of the first `n` peripherals has the number.
pub open spec fn is_listed(peripherals: Seq<NonSecurePeripheral>, id: int, n: int) -> bool {
    exists|j: int| 0 <= j < n && (#[trigger] peripherals[j]).number() == id
}

/// The flash regions after the initializer has run.
pub open spec fn flash_after(chip: Chip, layout: MemoryLayout, regions: Seq<RegionPermissions>) -> Seq<
    RegionPermissions,
> {
    Seq::new(
        regions.len(),
        |i: int|
            match wanted_flash(chip, layout, i) {
                Some(permissions) => permissions,
                None => regions[i],
            },
    )
}

/// The RAM regions after the initializer has run.
pub open spec fn ram_after(chip: Chip, layout: MemoryLayout, regions: Seq<RegionPermissions>) -> Seq<
    RegionPermissions,
> {
    Seq::new(
        regions.len(),
        |i: int|
            match wanted_ram(chip, layout, i) {
                Some(permissions) => permissions,
                None => regions[i],
            },
    )
}

/// The peripherals after the first `n` listed ones were handed over.
pub open spec fn peripherals_after(
    listed: Seq<NonSecurePeripheral>,
    peripherals: Seq<PeripheralPermissions>,
    n: int,
) -> Seq<PeripheralPermissions> {
    Seq::new(
        peripherals.len(),
        |id: int|
            if is_listed(listed, id, n) {
                nonsecure_peripheral()
            } else {
                peripherals[id]
            },
    )
}

/// The registers of pins or channels after the first `n` listed lines were
/// handed over.
pub open spec fn ports_after(lines: Seq<(usize, u32)>, ports: Seq<u32>, n: int) -> Seq<u32> {
    Seq::new(ports.len(), |port: int| cleared_bits(ports[port], lines, port, n))
}

/// The registers after the initializer has run on an accepted request: each
/// flash and RAM region as the layout wants it, the callable range carved,
/// the listed peripherals, pins and channels non-secure, the SAU out of the
/// way, the non-secure stack pointer at the end of non-secure RAM, and the
/// non-secure world's memory set up.
pub open spec fn partitioned(request: Request, hardware: SpuState) -> SpuState {
    let chip = request.chip;
    let layout = request.layout;
    SpuState {
        flash_regions: flash_after(chip, layout, hardware.flash_regions),
        ram_regions: ram_after(chip, layout, hardware.ram_regions),
        flash_callable_size: callable_size_register(chip, layout) as u32,
        flash_callable_region: callable_region_register(chip, layout),
        peripherals: peripherals_after(
            request.peripherals,
            hardware.peripherals,
            request.peripherals.len() as int,
        ),
        gpio_ports: ports_after(request.pins, hardware.gpio_ports, request.pins.len() as int),
        dppi: ports_after(request.dppi, hardware.dppi, request.dppi.len() as int),
        sau_control: SAU_ALL_NONSECURE,
        nonsecure_stack_pointer: layout.nonsecure_ram.end,
        nonsecure_data_initialized: true,
    }
}

/// The writes that set the first `n` flash regions: one for each region that
/// the layout wants otherwise than it is.
pub open spec fn flash_writes(
    chip: Chip,
    layout: MemoryLayout,
    regions: Seq<RegionPermissions>,
    n: int,
) -> Seq<RegisterWrite>
    decreases n,
{
    if n <= 0 {
        Seq::empty()
    } else {
        let before = flash_writes(chip, layout, regions, n - 1);
        match wanted_flash(chip, layout, n - 1) {
            Some(permissions) => if regions[n - 1] != permissions {
                before.push(RegisterWrite::FlashRegion { index: (n - 1) as usize, permissions })
            } else {
                before
            },
            None => before,
        }
    }
}

/// The writes that set the first `n` RAM regions: one for each region that
/// the layout wants otherwise than it is.
pub open spec fn ram_writes(
    chip: Chip,
    layout: MemoryLayout,
    regions: Seq<RegionPermissions>,
    n: int,
) -> Seq<RegisterWrite>
    decreases n,
{
    if n <= 0 {
        Seq::empty()
    } else {
        let before = ram_writes(chip, layout, regions, n - 1);
        match wanted_ram(chip, layout, n - 1) {
            Some(permissions) => if regions[n - 1] != permissions {
                before.push(RegisterWrite::RamRegion { index: (n - 1) as usize, permissions })
            } else {
                before
            },
            None => before,
        }
    }
}

/// The writes that carve the callable range.
pub open spec fn callable_writes(chip: Chip, layout: MemoryLayout) -> Seq<RegisterWrite> {
    seq![
        RegisterWrite::FlashCallableSize { value: callable_size_register(chip, layout) as u32 },
        RegisterWrite::FlashCallableRegion { value: callable_region_register(chip, layout) },
    ]
}

/// The writes that hand over the listed peripherals, one for each.
pub open spec fn peripheral_writes(peripherals: Seq<NonSecurePeripheral>) -> Seq<RegisterWrite> {
    Seq::new(peripherals.len(), |j: int| RegisterWrite::Peripheral { id: peripherals[j].number() })
}

/// The writes that hand over the listed pins, one for each.
pub open spec fn pin_writes(pins: Seq<(usize, u32)>) -> Seq<RegisterWrite> {
    Seq::new(pins.len(), |j: int| RegisterWrite::Pin { port: pins[j].0, pin: pins[j].1 })
}

/// The writes that hand over the listed DPPI channels, one for each.
pub open spec fn dppi_writes(dppi: Seq<(usize, u32)>) -> Seq<RegisterWrite> {
    Seq::new(
        dppi.len(),
        |j: int| RegisterWrite::DppiChannel { port: dppi[j].0, channel: dppi[j].1 },
    )
}

/// The writes that hand control over: the SAU out of the way, the non-secure
/// stack pointer, the two barriers, and the call that sets up the non-secure
/// world's memory.
pub open spec fn handover_writes(layout: MemoryLayout) -> Seq<RegisterWrite> {
    seq![
        RegisterWrite::SauControl { value: SAU_ALL_NONSECURE },
        RegisterWrite::NonSecureStackPointer { address: layout.nonsecure_ram.end },
        RegisterWrite::InstructionBarrier,
        RegisterWrite::DataBarrier,
        RegisterWrite::InitializeNonSecureData,
    ]
}

/// All writes of the initializer, in order: flash regions, RAM regions, the
/// callable range, peripherals, pins, DPPI channels, the handover.
pub open spec fn write_sequence(request: Request, hardware: SpuState) -> Seq<RegisterWrite> {
    flash_writes(
        request.chip,
        request.layout,
        hardware.flash_regions,
        hardware.flash_regions.len() as int,
    ) + ram_writes(
        request.chip,
        request.layout,
        hardware.ram_regions,
        hardware.ram_regions.len() as int,
    ) + callable_writes(request.chip, request.layout) + peripheral_writes(request.peripherals)
        + pin_writes(request.pins) + dppi_writes(request.dppi) + handover_writes(request.layout)
}

/// The size register for a range is the smallest that holds the range.
pub proof fn lemma_size_register_is_smallest(window: nat)
    ensures
        size_register_for(window) >= 1,
        window_bytes(size_register_for(window)) >= window,
        window_bytes(size_register_for(window)) >= 32,
        size_register_for(window) == 1 || window_bytes((size_register_for(window) - 1) as nat)
            < window,
    decreases window,
{
    if window > 32 {
        let half = (window + 1) / 2;
        lemma_size_register_is_smallest(half);
    }
}

/// No range of 4096 bytes or less gets a size register above eight.
pub proof fn lemma_size_register_at_most_eight(window: nat)
    requires
        window <= 4096,
    ensures
        1 <= size_register_for(window) <= 8,
{
    reveal_with_fuel(size_register_for, 10);
}

/// A request that is accepted for a chip that can mark 4096 bytes at most
/// gets a size register from one to eight.
pub proof fn lemma_accepted_size_register(request: Request, hardware: SpuState)
    requires
        request.chip.well_formed(),
        request.chip.max_callable_size <= 4096,
        refusal(request, hardware) is None,
    ensures
        1 <= callable_size_register(request.chip, request.layout) <= 8,
        partitioned(request, hardware).flash_callable_size == callable_size_register(
            request.chip,
            request.layout,
        ),
{
    lemma_size_register_at_most_eight(callable_window(request.chip, request.layout) as nat);
}

/// The size register of a range that fits 32 bits is at most 28.
pub proof fn lemma_size_register_fits(window: nat)
    requires
        window <= u32::MAX,
    ensures
        1 <= size_register_for(window) <= 28,
{
    lemma_size_register_bounds(window);
    lemma_size_register_is_smallest(window);
}

proof fn lemma_size_register_bounds(window: nat)
    ensures
        window <= 0xFFFF_FFFF ==> size_register_for(window) <= 28,
{
    reveal_with_fuel(size_register_for, 30);
}

fn size_register(window: u32) -> (register: u32)
    ensures
        register == size_register_for(window as nat),
        1 <= register <= 28,
{
    proof {
        lemma_size_register_bounds(window as nat);
    }
    let mut register: u32 = 1;
    let mut rest = window;
    while rest > 32
        invariant
            1 <= register,
            size_register_for(window as nat) == register - 1 + size_register_for(rest as nat),
            size_register_for(window as nat) <= 28,
        decreases rest,
    {
        assert((rest as nat + 1) / 2 == rest / 2 + rest % 2);
        rest = rest / 2 + rest % 2;
        register += 1;
    }
    register
}

fn bytes_of(register: u32) -> (bytes: u64)
    requires
        1 <= register <= 28,
    ensures
        bytes == window_bytes(register as nat),
        32 <= bytes <= 0x1_0000_0000,
{
    let mut bytes: u64 = 32;
    let mut step: u32 = 1;
    while step < register
        invariant
            1 <= step <= register <= 28,
            bytes == window_bytes(step as nat),
            32 <= bytes <= 0x1_0000_0000,
        decreases register - step,
    {
        proof {
            lemma_window_bound((step + 1) as nat);
        }
        bytes = bytes * 2;
        step += 1;
    }
    bytes
}

proof fn lemma_window_bound(register: nat)
    requires
        1 <= register <= 28,
    ensures
        32 <= window_bytes(register) <= 0x1_0000_0000,
{
    reveal_with_fuel(window_bytes, 30);
}

/// Whether the unit would mark another range as callable than the layout
/// allows.
fn check_spill(chip: &Chip, layout: &MemoryLayout) -> (spills: bool)
    requires
        chip.well_formed(),
        callable_region(*chip, *layout) < CALLABLE_REGIONS,
    ensures
        spills == callable_spills(*chip, *layout),
{
    let region = layout.callable_flash.start / chip.flash_region_size;
    proof {
        assert(0 <= (region as int + 1) * chip.flash_region_size as int <= 64 * 0xFFFF_FFFF)
            by (nonlinear_arith)
            requires
                0 <= region < 64,
                0 <= chip.flash_region_size <= 0xFFFF_FFFF,
        ;
    }
    let high: u64 = (region as u64 + 1) * chip.flash_region_size as u64;
    let bytes = bytes_of(size_register(callable_window_of(chip, layout)));
    let low: u64 = if bytes > high {
        0
    } else {
        high - bytes
    };
    let secure = layout.secure_flash;
    let nonsecure = layout.nonsecure_flash;
    let callable = layout.callable_flash;
    (secure.start < secure.end && low < secure.end as u64 && (secure.start as u64) < high) || (
    nonsecure.start < nonsecure.end && low < nonsecure.end as u64 && (nonsecure.start as u64)
        < high) || (callable.start < callable.end && callable.end as u64 != high)
}

fn flash_target(chip: &Chip, layout: &MemoryLayout, index: usize) -> (wanted: Option<
    RegionPermissions,
>)
    requires
        chip.well_formed(),
    ensures
        wanted == wanted_flash(*chip, *layout, index as int),
{
    if index > 0xFFFF_FFFF {
        proof {
            assert(index as int * chip.flash_region_size as int > 0xFFFF_FFFF) by (nonlinear_arith)
                requires
                    index > 0xFFFF_FFFF,
                    chip.flash_region_size >= 1,
            ;
        }
        return None;
    }
    proof {
        assert(0 <= index as int * chip.flash_region_size as int <= 0xFFFF_FFFF * 0xFFFF_FFFF)
            by (nonlinear_arith)
            requires
                0 <= index <= 0xFFFF_FFFF,
                0 <= chip.flash_region_size <= 0xFFFF_FFFF,
        ;
    }
    let address: u64 = index as u64 * chip.flash_region_size as u64;
    if layout.secure_flash.contains(address) || layout.callable_flash.contains(address) {
        Some(RegionPermissions { execute: true, read: true, write: true, secure: true })
    } else if layout.nonsecure_flash.contains(address) {
        Some(RegionPermissions { execute: true, read: true, write: true, secure: false })
    } else {
        None
    }
}

fn ram_target(chip: &Chip, layout: &MemoryLayout, index: usize) -> (wanted: Option<
    RegionPermissions,
>)
    requires
        chip.well_formed(),
    ensures
        wanted == wanted_ram(*chip, *layout, index as int),
{
    if index > 0xFFFF_FFFF {
        proof {
            assert(index as int * chip.ram_region_size as int > 0xFFFF_FFFF) by (nonlinear_arith)
                requires
                    index > 0xFFFF_FFFF,
                    chip.ram_region_size >= 1,
            ;
        }
        return None;
    }
    proof {
        assert(0 <= index as int * chip.ram_region_size as int <= 0xFFFF_FFFF * 0xFFFF_FFFF)
            by (nonlinear_arith)
            requires
                0 <= index <= 0xFFFF_FFFF,
                0 <= chip.ram_region_size <= 0xFFFF_FFFF,
        ;
    }
    let address: u64 = chip.ram_start as u64 + index as u64 * chip.ram_region_size as u64;
    if layout.secure_ram.contains(address) {
        Some(RegionPermissions { execute: true, read: true, write: true, secure: true })
    } else if layout.nonsecure_ram.contains(address) {
        Some(RegionPermissions { execute: true, read: true, write: true, secure: false })
    } else {
        None
    }
}

fn check_alignment(chip: &Chip, layout: &MemoryLayout) -> (misaligned: Option<Boundary>)
    requires
        chip.well_formed(),
    ensures
        misaligned == first_misaligned(*chip, *layout),
{
    reveal_with_fuel(first_misaligned_below, 9);
    if layout.secure_flash.start % chip.flash_region_size != 0 {
        Some(Boundary::SecureFlashStart)
    } else if layout.callable_flash.end % chip.flash_region_size != 0 {
        Some(Boundary::CallableFlashEnd)
    } else if layout.nonsecure_flash.start % chip.flash_region_size != 0 {
        Some(Boundary::NonSecureFlashStart)
    } else if layout.nonsecure_flash.end % chip.flash_region_size != 0 {
        Some(Boundary::NonSecureFlashEnd)
    } else if layout.secure_ram.start % chip.ram_region_size != 0 {
        Some(Boundary::SecureRamStart)
    } else if layout.secure_ram.end % chip.ram_region_size != 0 {
        Some(Boundary::SecureRamEnd)
    } else if layout.nonsecure_ram.start % chip.ram_region_size != 0 {
        Some(Boundary::NonSecureRamStart)
    } else if layout.nonsecure_ram.end % chip.ram_region_size != 0 {
        Some(Boundary::NonSecureRamEnd)
    } else {
        None
    }
}

fn callable_window_of(chip: &Chip, layout: &MemoryLayout) -> (window: u32)
    requires
        chip.well_formed(),
    ensures
        window == callable_window(*chip, *layout),
        1 <= window <= chip.flash_region_size,
{
    chip.flash_region_size - layout.callable_flash.start % chip.flash_region_size
}

fn check_bits(lines: &[(usize, u32)], ports: usize) -> (unknown: Option<(usize, u32)>)
    ensures
        unknown == first_unknown_bit(lines@, ports as int, lines@.len() as int),
{
    let mut index: usize = 0;
    while index < lines.len()
        invariant
            index <= lines.len(),
            first_unknown_bit(lines@, ports as int, index as int) is None,
        decreases lines.len() - index,
    {
        let line = lines[index];
        if !(line.0 < ports && line.1 < 32) {
            proof {
                lemma_first_unknown_bit_found(lines@, ports as int, index as int);
            }
            return Some(line);
        }
        index += 1;
    }
    None
}

proof fn lemma_first_unknown_bit_found(lines: Seq<(usize, u32)>, ports: int, index: int)
    requires
        0 <= index < lines.len(),
        first_unknown_bit(lines, ports, index) is None,
        !is_known_bit(lines[index], ports),
    ensures
        first_unknown_bit(lines, ports, lines.len() as int) == Some(lines[index]),
{
    lemma_first_unknown_bit_stays(lines, ports, index + 1, lines.len() as int);
}

proof fn lemma_first_unknown_bit_stays(lines: Seq<(usize, u32)>, ports: int, found: int, n: int)
    requires
        0 <= found <= n,
        first_unknown_bit(lines, ports, found) is Some,
    ensures
        first_unknown_bit(lines, ports, n) == first_unknown_bit(lines, ports, found),
    decreases n - found,
{
    if found < n {
        lemma_first_unknown_bit_stays(lines, ports, found, n - 1);
    }
}

/// A request without an unknown pin or channel lists known bits only.
pub proof fn lemma_all_bits_known(lines: Seq<(usize, u32)>, ports: int, n: int)
    requires
        first_unknown_bit(lines, ports, n) is None,
    ensures
        forall|j: int| 0 <= j < n ==> is_known_bit(#[trigger] lines[j], ports),
    decreases n,
{
    if n > 0 {
        lemma_all_bits_known(lines, ports, n - 1);
    }
}

fn check_peripherals(peripherals: &[NonSecurePeripheral], known: usize) -> (unknown: Option<usize>)
    ensures
        unknown == first_unknown_peripheral(
            peripherals@,
            known as int,
            peripherals@.len() as int,
        ),
{
    let mut index: usize = 0;
    while index < peripherals.len()
        invariant
            index <= peripherals.len(),
            first_unknown_peripheral(peripherals@, known as int, index as int) is None,
        decreases peripherals.len() - index,
    {
        let id = peripherals[index].id();
        if id >= known {
            proof {
                lemma_first_unknown_peripheral_stays(
                    peripherals@,
                    known as int,
                    index as int + 1,
                    peripherals@.len() as int,
                );
            }
            return Some(id);
        }
        index += 1;
    }
    None
}

proof fn lemma_first_unknown_peripheral_stays(
    peripherals: Seq<NonSecurePeripheral>,
    known: int,
    found: int,
    n: int,
)
    requires
        0 <= found <= n,
        first_unknown_peripheral(peripherals, known, found) is Some,
    ensures
        first_unknown_peripheral(peripherals, known, n) == first_unknown_peripheral(
            peripherals,
            known,
            found,
        ),
    decreases n - found,
{
    if found < n {
        lemma_first_unknown_peripheral_stays(peripherals, known, found, n - 1);
    }
}

/// A request without an unknown peripheral lists known peripherals only.
pub proof fn lemma_all_peripherals_known(
    peripherals: Seq<NonSecurePeripheral>,
    known: int,
    n: int,
)
    requires
        first_unknown_peripheral(peripherals, known, n) is None,
    ensures
        forall|j: int| 0 <= j < n ==> (#[trigger] peripherals[j]).number() < known,
    decreases n,
{
    if n > 0 {
        lemma_all_peripherals_known(peripherals, known, n - 1);
    }
}

/// Checks a request against the chip and the unit that it is meant for,
/// before any register is written.
pub fn validate(
    chip: &Chip,
    layout: &MemoryLayout,
    nonsecure_peripherals: &[NonSecurePeripheral],
    nonsecure_pins: &[(usize, u32)],
    nonsecure_dppi: &[(usize, u32)],
    hardware: &Spu,
) -> (checked: Result<(), ConfigError>)
    requires
        chip.well_formed(),
    ensures
        match checked {
            Ok(()) => refusal(
                (Request {
                    chip: *chip,
                    layout: *layout,
                    peripherals: nonsecure_peripherals@,
                    pins: nonsecure_pins@,
                    dppi: nonsecure_dppi@,
                }),
                hardware@,
            ) is None,
            Err(error) => refusal(
                (Request {
                    chip: *chip,
                    layout: *layout,
                    peripherals: nonsecure_peripherals@,
                    pins: nonsecure_pins@,
                    dppi: nonsecure_dppi@,
                }),
                hardware@,
            ) == Some(error),
        },
{
    match check_alignment(chip, layout) {
        Some(boundary) => {
            return Err(ConfigError::Misaligned { boundary });
        },
        None => {},
    }
    if layout.overlapping() {
        return Err(ConfigError::Overlap);
    }
    let window = callable_window_of(chip, layout);
    if layout.callable_flash.len() > chip.max_callable_size || window > chip.max_callable_size {
        return Err(ConfigError::CallableRegionTooLarge);
    }
    if window < MIN_CALLABLE_WINDOW {
        return Err(ConfigError::CallableRegionTooSmall);
    }
    let region = layout.callable_flash.start / chip.flash_region_size;
    if region >= CALLABLE_REGIONS {
        return Err(ConfigError::CallableRegionOutOfReach);
    }
    match flash_target(chip, layout, region as usize) {
        Some(permissions) => {
            if !permissions.secure {
                return Err(ConfigError::CallableRegionNotSecure);
            }
        },
        None => {
            return Err(ConfigError::CallableRegionNotSecure);
        },
    }
    if check_spill(chip, layout) {
        return Err(ConfigError::CallableRegionSpills);
    }
    match check_peripherals(nonsecure_peripherals, hardware.peripherals.len()) {
        Some(id) => {
            return Err(ConfigError::UnknownPeripheral { id });
        },
        None => {},
    }
    match check_bits(nonsecure_pins, hardware.gpio_ports.len()) {
        Some(line) => {
            return Err(ConfigError::UnknownPin { port: line.0, pin: line.1 });
        },
        None => {},
    }
    match check_bits(nonsecure_dppi, hardware.dppi.len()) {
        Some(line) => {
            return Err(ConfigError::UnknownChannel { port: line.0, channel: line.1 });
        },
        None => {},
    }
    Ok(())
}

fn set_flash_regions(
    chip: &Chip,
    layout: &MemoryLayout,
    hardware: &mut Spu,
    writes: &mut Vec<RegisterWrite>,
)
    requires
        chip.well_formed(),
    ensures
        final(hardware)@ == (SpuState {
            flash_regions: flash_after(*chip, *layout, old(hardware)@.flash_regions),
            ..old(hardware)@
        }),
        final(writes)@ == old(writes)@ + flash_writes(
            *chip,
            *layout,
            old(hardware)@.flash_regions,
            old(hardware)@.flash_regions.len() as int,
        ),
{
    let ghost before = hardware@;
    let ghost written = writes@;
    let count = hardware.flash_regions.len();
    let mut index: usize = 0;
    while index < count
        invariant
            chip.well_formed(),
            index <= count,
            count == before.flash_regions.len(),
            hardware@ == (SpuState { flash_regions: hardware.flash_regions@, ..before }),
            hardware.flash_regions@.len() == count,
            forall|i: int|
                0 <= i < index ==> hardware.flash_regions@[i] == flash_after(
                    *chip,
                    *layout,
                    before.flash_regions,
                )[i],
            forall|i: int|
                index <= i < count ==> hardware.flash_regions@[i] == before.flash_regions[i],
            writes@ == written + flash_writes(*chip, *layout, before.flash_regions, index as int),
        decreases count - index,
    {
        match flash_target(chip, layout, index) {
            Some(permissions) => {
                if hardware.flash_regions[index] != permissions {
                    hardware.flash_regions.set(index, permissions);
                    writes.push(RegisterWrite::FlashRegion { index, permissions });
                }
            },
            None => {},
        }
        index += 1;
    }
    assert(hardware.flash_regions@ =~= flash_after(*chip, *layout, before.flash_regions));
}

fn set_ram_regions(
    chip: &Chip,
    layout: &MemoryLayout,
    hardware: &mut Spu,
    writes: &mut Vec<RegisterWrite>,
)
    requires
        chip.well_formed(),
    ensures
        final(hardware)@ == (SpuState {
            ram_regions: ram_after(*chip, *layout, old(hardware)@.ram_regions),
            ..old(hardware)@
        }),
        final(writes)@ == old(writes)@ + ram_writes(
            *chip,
            *layout,
            old(hardware)@.ram_regions,
            old(hardware)@.ram_regions.len() as int,
        ),
{
    let ghost before = hardware@;
    let ghost written = writes@;
    let count = hardware.ram_regions.len();
    let mut index: usize = 0;
    while index < count
        invariant
            chip.well_formed(),
            index <= count,
            count == before.ram_regions.len(),
            hardware@ == (SpuState { ram_regions: hardware.ram_regions@, ..before }),
            hardware.ram_regions@.len() == count,
            forall|i: int|
                0 <= i < index ==> hardware.ram_regions@[i] == ram_after(
                    *chip,
                    *layout,
                    before.ram_regions,
                )[i],
            forall|i: int| index <= i < count ==> hardware.ram_regions@[i] == before.ram_regions[i],
            writes@ == written + ram_writes(*chip, *layout, before.ram_regions, index as int),
        decreases count - index,
    {
        match ram_target(chip, layout, index) {
            Some(permissions) => {
                if hardware.ram_regions[index] != permissions {
                    hardware.ram_regions.set(index, permissions);
                    writes.push(RegisterWrite::RamRegion { index, permissions });
                }
            },
            None => {},
        }
        index += 1;
    }
    assert(hardware.ram_regions@ =~= ram_after(*chip, *layout, before.ram_regions));
}

/// Carves the callable range out of secure flash: the smallest range that
/// the size register can say and that holds the gateway veneers, at the end
/// of the flash region that they stand in.
fn set_nsc_region(
    chip: &Chip,
    layout: &MemoryLayout,
    hardware: &mut Spu,
    writes: &mut Vec<RegisterWrite>,
)
    requires
        chip.well_formed(),
        MIN_CALLABLE_WINDOW <= callable_window(*chip, *layout) <= chip.max_callable_size,
    ensures
        final(hardware)@ == (SpuState {
            flash_callable_size: callable_size_register(*chip, *layout) as u32,
            flash_callable_region: callable_region_register(*chip, *layout),
            ..old(hardware)@
        }),
        final(writes)@ == old(writes)@ + callable_writes(*chip, *layout),
        1 <= final(hardware)@.flash_callable_size,
        window_bytes(final(hardware)@.flash_callable_size as nat) >= callable_window(
            *chip,
            *layout,
        ),
        final(hardware)@.flash_callable_size == 1 || window_bytes(
            (final(hardware)@.flash_callable_size - 1) as nat,
        ) < callable_window(*chip, *layout),
        chip.max_callable_size <= 4096 ==> final(hardware)@.flash_callable_size <= 8,
{
    let sg_start = layout.callable_flash.start;
    let nsc_size = callable_window_of(chip, layout);
    proof {
        lemma_size_register_is_smallest(nsc_size as nat);
        if chip.max_callable_size <= 4096 {
            lemma_size_register_at_most_eight(nsc_size as nat);
        }
    }
    let size_reg = size_register(nsc_size);
    let region_reg = (sg_start / chip.flash_region_size) & 0x3F;
    hardware.flash_callable_size = size_reg;
    writes.push(RegisterWrite::FlashCallableSize { value: size_reg });
    hardware.flash_callable_region = region_reg;
    writes.push(RegisterWrite::FlashCallableRegion { value: region_reg });
}

fn release_peripherals(
    nonsecure_peripherals: &[NonSecurePeripheral],
    hardware: &mut Spu,
    writes: &mut Vec<RegisterWrite>,
)
    requires
        forall|j: int|
            0 <= j < nonsecure_peripherals@.len() ==> (#[trigger] nonsecure_peripherals@[j]).number()
                < old(hardware)@.peripherals.len(),
    ensures
        final(hardware)@ == (SpuState {
            peripherals: peripherals_after(
                nonsecure_peripherals@,
                old(hardware)@.peripherals,
                nonsecure_peripherals@.len() as int,
            ),
            ..old(hardware)@
        }),
        final(writes)@ == old(writes)@ + peripheral_writes(nonsecure_peripherals@),
{
    let ghost before = hardware@;
    let ghost written = writes@;
    assert(before.peripherals =~= peripherals_after(nonsecure_peripherals@, before.peripherals, 0));
    let mut index: usize = 0;
    while index < nonsecure_peripherals.len()
        invariant
            index <= nonsecure_peripherals.len(),
            forall|j: int|
                0 <= j < nonsecure_peripherals@.len() ==> (
                #[trigger] nonsecure_peripherals@[j]).number() < before.peripherals.len(),
            hardware@ == (SpuState {
                peripherals: peripherals_after(
                    nonsecure_peripherals@,
                    before.peripherals,
                    index as int,
                ),
                ..before
            }),
            writes@ == written + peripheral_writes(nonsecure_peripherals@).take(index as int),
        decreases nonsecure_peripherals.len() - index,
    {
        let peripheral = nonsecure_peripherals[index];
        let id = peripheral.id();
        hardware.peripherals.set(id, PeripheralPermissions { secure: false, dma_secure: false });
        writes.push(RegisterWrite::Peripheral { id });
        proof {
            let list = nonsecure_peripherals@;
            assert forall|other: int| 0 <= other < before.peripherals.len() implies is_listed(
                list,
                other,
                index as int + 1,
            ) == (is_listed(list, other, index as int) || other == id) by {
                if is_listed(list, other, index as int + 1) {
                    let j = choose|j: int|
                        0 <= j < index as int + 1 && (#[trigger] list[j]).number() == other;
                    if j < index {
                        assert(is_listed(list, other, index as int));
                    }
                }
                if is_listed(list, other, index as int) {
                    let j = choose|j: int|
                        0 <= j < index as int && (#[trigger] list[j]).number() == other;
                    assert(list[j].number() == other);
                }
                if other == id {
                    assert(list[index as int].number() == other);
                }
            }
            assert(hardware.peripherals@ =~= peripherals_after(
                list,
                before.peripherals,
                index as int + 1,
            ));
            assert(peripheral_writes(list).take(index as int + 1) =~= peripheral_writes(list).take(
                index as int,
            ).push(RegisterWrite::Peripheral { id }));
        }
        index += 1;
    }
    proof {
        let all = peripheral_writes(nonsecure_peripherals@);
        assert(all.take(nonsecure_peripherals@.len() as int) == all);
    }
}

fn release_pins(
    nonsecure_pins: &[(usize, u32)],
    hardware: &mut Spu,
    writes: &mut Vec<RegisterWrite>,
)
    requires
        forall|j: int|
            0 <= j < nonsecure_pins@.len() ==> is_known_bit(
                #[trigger] nonsecure_pins@[j],
                old(hardware)@.gpio_ports.len() as int,
            ),
    ensures
        final(hardware)@ == (SpuState {
            gpio_ports: ports_after(
                nonsecure_pins@,
                old(hardware)@.gpio_ports,
                nonsecure_pins@.len() as int,
            ),
            ..old(hardware)@
        }),
        final(writes)@ == old(writes)@ + pin_writes(nonsecure_pins@),
{
    let ghost before = hardware@;
    let ghost written = writes@;
    assert(before.gpio_ports =~= ports_after(nonsecure_pins@, before.gpio_ports, 0));
    let mut index: usize = 0;
    while index < nonsecure_pins.len()
        invariant
            index <= nonsecure_pins.len(),
            forall|j: int|
                0 <= j < nonsecure_pins@.len() ==> is_known_bit(
                    #[trigger] nonsecure_pins@[j],
                    before.gpio_ports.len() as int,
                ),
            hardware@ == (SpuState {
                gpio_ports: ports_after(nonsecure_pins@, before.gpio_ports, index as int),
                ..before
            }),
            writes@ == written + pin_writes(nonsecure_pins@).take(index as int),
        decreases nonsecure_pins.len() - index,
    {
        let (pin_port, pin) = nonsecure_pins[index];
        assert(is_known_bit(nonsecure_pins@[index as int], before.gpio_ports.len() as int));
        let bits = hardware.gpio_ports[pin_port];
        hardware.gpio_ports.set(pin_port, bits & !(1u32 << pin));
        writes.push(RegisterWrite::Pin { port: pin_port, pin });
        proof {
            assert(hardware.gpio_ports@ =~= ports_after(
                nonsecure_pins@,
                before.gpio_ports,
                index as int + 1,
            ));
            assert(pin_writes(nonsecure_pins@).take(index as int + 1) =~= pin_writes(
                nonsecure_pins@,
            ).take(index as int).push(RegisterWrite::Pin { port: pin_port, pin }));
        }
        index += 1;
    }
    proof {
        let all = pin_writes(nonsecure_pins@);
        assert(all.take(nonsecure_pins@.len() as int) == all);
    }
}

fn release_dppi(
    nonsecure_dppi: &[(usize, u32)],
    hardware: &mut Spu,
    writes: &mut Vec<RegisterWrite>,
)
    requires
        forall|j: int|
            0 <= j < nonsecure_dppi@.len() ==> is_known_bit(
                #[trigger] nonsecure_dppi@[j],
                old(hardware)@.dppi.len() as int,
            ),
    ensures
        final(hardware)@ == (SpuState {
            dppi: ports_after(nonsecure_dppi@, old(hardware)@.dppi, nonsecure_dppi@.len() as int),
            ..old(hardware)@
        }),
        final(writes)@ == old(writes)@ + dppi_writes(nonsecure_dppi@),
{
    let ghost before = hardware@;
    let ghost written = writes@;
    assert(before.dppi =~= ports_after(nonsecure_dppi@, before.dppi, 0));
    let mut index: usize = 0;
    while index < nonsecure_dppi.len()
        invariant
            index <= nonsecure_dppi.len(),
            forall|j: int|
                0 <= j < nonsecure_dppi@.len() ==> is_known_bit(
                    #[trigger] nonsecure_dppi@[j],
                    before.dppi.len() as int,
                ),
            hardware@ == (SpuState {
                dppi: ports_after(nonsecure_dppi@, before.dppi, index as int),
                ..before
            }),
            writes@ == written + dppi_writes(nonsecure_dppi@).take(index as int),
        decreases nonsecure_dppi.len() - index,
    {
        let (port, channel) = nonsecure_dppi[index];
        assert(is_known_bit(nonsecure_dppi@[index as int], before.dppi.len() as int));
        let bits = hardware.dppi[port];
        hardware.dppi.set(port, bits & !(1u32 << channel));
        writes.push(RegisterWrite::DppiChannel { port, channel });
        proof {
            assert(hardware.dppi@ =~= ports_after(nonsecure_dppi@, before.dppi, index as int + 1));
            assert(dppi_writes(nonsecure_dppi@).take(index as int + 1) =~= dppi_writes(
                nonsecure_dppi@,
            ).take(index as int).push(RegisterWrite::DppiChannel { port, channel }));
        }
        index += 1;
    }
    proof {
        let all = dppi_writes(nonsecure_dppi@);
        assert(all.take(nonsecure_dppi@.len() as int) == all);
    }
}

/// Partitions the chip: checks the request, then sets the registers of
/// `hardware` and returns every write that it made, in order. A request that
/// is refused changes nothing.
///
/// The order is fixed: every flash region and every RAM region is given to
/// its world, where it is not there already; the callable range is carved
/// out of secure flash; the listed peripherals, pins and DPPI channels become
/// non-secure; the SAU is taken out of the way; the non-secure stack pointer
/// is set to the end of non-secure RAM; the barriers are issued; and the
/// non-secure world is called to set up its memory.
pub fn initialize(
    chip: &Chip,
    layout: &MemoryLayout,
    nonsecure_peripherals: &[NonSecurePeripheral],
    nonsecure_pins: &[(usize, u32)],
    nonsecure_dppi: &[(usize, u32)],
    hardware: &mut Spu,
) -> (result: Result<Vec<RegisterWrite>, ConfigError>)
    requires
        chip.well_formed(),
    ensures
        match result {
            Ok(writes) => {
                let request = Request {
                    chip: *chip,
                    layout: *layout,
                    peripherals: nonsecure_peripherals@,
                    pins: nonsecure_pins@,
                    dppi: nonsecure_dppi@,
                };
                &&& refusal(request, old(hardware)@) is None
                &&& final(hardware)@ == partitioned(request, old(hardware)@)
                &&& writes@ == write_sequence(request, old(hardware)@)
            },
            Err(error) => {
                let request = Request {
                    chip: *chip,
                    layout: *layout,
                    peripherals: nonsecure_peripherals@,
                    pins: nonsecure_pins@,
                    dppi: nonsecure_dppi@,
                };
                &&& refusal(request, old(hardware)@) == Some(error)
                &&& final(hardware)@ == old(hardware)@
            },
        },
{
    match validate(chip, layout, nonsecure_peripherals, nonsecure_pins, nonsecure_dppi, hardware) {
        Ok(()) => {},
        Err(error) => {
            return Err(error);
        },
    }
    proof {
        lemma_all_peripherals_known(
            nonsecure_peripherals@,
            hardware@.peripherals.len() as int,
            nonsecure_peripherals@.len() as int,
        );
        lemma_all_bits_known(
            nonsecure_pins@,
            hardware@.gpio_ports.len() as int,
            nonsecure_pins@.len() as int,
        );
        lemma_all_bits_known(
            nonsecure_dppi@,
            hardware@.dppi.len() as int,
            nonsecure_dppi@.len() as int,
        );
    }
    let mut writes: Vec<RegisterWrite> = Vec::new();
    set_flash_regions(chip, layout, hardware, &mut writes);
    set_ram_regions(chip, layout, hardware, &mut writes);
    set_nsc_region(chip, layout, hardware, &mut writes);
    release_peripherals(nonsecure_peripherals, hardware, &mut writes);
    release_pins(nonsecure_pins, hardware, &mut writes);
    release_dppi(nonsecure_dppi, hardware, &mut writes);

    hardware.sau_control = SAU_ALL_NONSECURE;
    writes.push(RegisterWrite::SauControl { value: SAU_ALL_NONSECURE });
    hardware.nonsecure_stack_pointer = layout.nonsecure_ram.end;
    writes.push(RegisterWrite::NonSecureStackPointer { address: layout.nonsecure_ram.end });
    writes.push(RegisterWrite::InstructionBarrier);
    writes.push(RegisterWrite::DataBarrier);
    hardware.nonsecure_data_initialized = true;
    writes.push(RegisterWrite::InitializeNonSecureData);
    Ok(writes)
}

proof fn lemma_clear_bit(bits: u32, cleared: u32, other: u32)
    requires
        cleared < 32,
        other < 32,
    ensures
        (bits & !(1u32 << cleared)) & (1u32 << cleared) == 0,
        bits & (1u32 << cleared) == 0 ==> (bits & !(1u32 << other)) & (1u32 << cleared) == 0,
        bits & (1u32 << cleared) == 0 ==> bits & !(1u32 << cleared) == bits,
{
    assert((bits & !(1u32 << cleared)) & (1u32 << cleared) == 0) by (bit_vector)
        requires
            cleared < 32,
    ;
    assert(bits & (1u32 << cleared) == 0 ==> (bits & !(1u32 << other)) & (1u32 << cleared) == 0)
        by (bit_vector)
        requires
            cleared < 32,
            other < 32,
    ;
    assert(bits & (1u32 << cleared) == 0 ==> bits & !(1u32 << cleared) == bits) by (bit_vector)
        requires
            cleared < 32,
    ;
}

/// After the first `n` lines were handed over, the bit of each of them is
/// clear in the register of its port.
pub proof fn lemma_listed_bits_clear(bits: u32, lines: Seq<(usize, u32)>, port: int, n: int, j: int)
    requires
        0 <= j < n <= lines.len(),
        forall|k: int| 0 <= k < n ==> (#[trigger] lines[k]).1 < 32,
        lines[j].0 == port,
    ensures
        cleared_bits(bits, lines, port, n) & (1u32 << lines[j].1) == 0,
    decreases n,
{
    let before = cleared_bits(bits, lines, port, n - 1);
    if j == n - 1 {
        lemma_clear_bit(before, lines[j].1, lines[j].1);
    } else {
        lemma_listed_bits_clear(bits, lines, port, n - 1, j);
        assert(lines[n - 1].1 < 32);
        lemma_clear_bit(before, lines[j].1, lines[n - 1].1);
    }
}

/// Handing the listed lines over a second time changes no register.
pub proof fn lemma_cleared_bits_idempotent(bits: u32, lines: Seq<(usize, u32)>, port: int, n: int)
    requires
        0 <= n <= lines.len(),
        forall|k: int| 0 <= k < lines.len() ==> (#[trigger] lines[k]).1 < 32,
    ensures
        cleared_bits(cleared_bits(bits, lines, port, lines.len() as int), lines, port, n)
            == cleared_bits(bits, lines, port, lines.len() as int),
    decreases n,
{
    if n > 0 {
        lemma_cleared_bits_idempotent(bits, lines, port, n - 1);
        if lines[n - 1].0 == port {
            let done = cleared_bits(bits, lines, port, lines.len() as int);
            lemma_listed_bits_clear(bits, lines, port, lines.len() as int, n - 1);
            lemma_clear_bit(done, lines[n - 1].1, lines[n - 1].1);
        }
    }
}

/// Flash regions that are as the layout wants them need no write.
pub proof fn lemma_no_flash_writes_after(
    chip: Chip,
    layout: MemoryLayout,
    regions: Seq<RegionPermissions>,
    n: int,
)
    requires
        0 <= n <= regions.len(),
    ensures
        flash_writes(chip, layout, flash_after(chip, layout, regions), n) == Seq::<
            RegisterWrite,
        >::empty(),
    decreases n,
{
    if n > 0 {
        lemma_no_flash_writes_after(chip, layout, regions, n - 1);
    }
}

/// RAM regions that are as the layout wants them need no write.
pub proof fn lemma_no_ram_writes_after(
    chip: Chip,
    layout: MemoryLayout,
    regions: Seq<RegionPermissions>,
    n: int,
)
    requires
        0 <= n <= regions.len(),
    ensures
        ram_writes(chip, layout, ram_after(chip, layout, regions), n) == Seq::<
            RegisterWrite,
        >::empty(),
    decreases n,
{
    if n > 0 {
        lemma_no_ram_writes_after(chip, layout, regions, n - 1);
    }
}

/// Partitioning is idempotent: a request that was accepted is accepted again
/// on the registers that it left, leaves them as they are, and writes no
/// flash or RAM region a second time.
pub proof fn lemma_partition_idempotent(request: Request, hardware: SpuState)
    requires
        refusal(request, hardware) is None,
    ensures
        refusal(request, partitioned(request, hardware)) is None,
        partitioned(request, partitioned(request, hardware)) == partitioned(request, hardware),
        flash_writes(
            request.chip,
            request.layout,
            partitioned(request, hardware).flash_regions,
            hardware.flash_regions.len() as int,
        ) == Seq::<RegisterWrite>::empty(),
        ram_writes(
            request.chip,
            request.layout,
            partitioned(request, hardware).ram_regions,
            hardware.ram_regions.len() as int,
        ) == Seq::<RegisterWrite>::empty(),
{
    let once = partitioned(request, hardware);
    let twice = partitioned(request, once);
    let chip = request.chip;
    let layout = request.layout;
    let flash_count = hardware.flash_regions.len() as int;
    let ram_count = hardware.ram_regions.len() as int;
    lemma_no_flash_writes_after(chip, layout, hardware.flash_regions, flash_count);
    lemma_no_ram_writes_after(chip, layout, hardware.ram_regions, ram_count);
    assert(twice.flash_regions =~= once.flash_regions);
    assert(twice.ram_regions =~= once.ram_regions);
    assert(twice.peripherals =~= once.peripherals);
    lemma_all_bits_known(request.pins, hardware.gpio_ports.len() as int, request.pins.len() as int);
    lemma_all_bits_known(request.dppi, hardware.dppi.len() as int, request.dppi.len() as int);
    assert forall|port: int| 0 <= port < hardware.gpio_ports.len() implies twice.gpio_ports[port]
        == once.gpio_ports[port] by {
        lemma_cleared_bits_idempotent(
            hardware.gpio_ports[port],
            request.pins,
            port,
            request.pins.len() as int,
        );
    }
    assert(twice.gpio_ports =~= once.gpio_ports);
    assert forall|port: int| 0 <= port < hardware.dppi.len() implies twice.dppi[port]
        == once.dppi[port] by {
        let listed = request.dppi.len() as int;
        lemma_cleared_bits_idempotent(hardware.dppi[port], request.dppi, port, listed);
    }
    assert(twice.dppi =~= once.dppi);
}

/// A range of gateway veneers that is larger than the chip can mark as
/// callable is refused, whatever else the request holds.
pub proof fn lemma_oversized_callable_refused(request: Request, hardware: SpuState)
    requires
        request.layout.callable_flash.size() > request.chip.max_callable_size,
    ensures
        refusal(request, hardware) is Some,
{
}

/// The registers after one write. A write to a region, a peripheral, a pin or
/// a channel that the unit does not have changes nothing.
pub open spec fn applied(hardware: SpuState, write: RegisterWrite) -> SpuState {
    match write {
        RegisterWrite::FlashRegion { index, permissions } => if index
            < hardware.flash_regions.len() {
            SpuState {
                flash_regions: hardware.flash_regions.update(index as int, permissions),
                ..hardware
            }
        } else {
            hardware
        },
        RegisterWrite::RamRegion { index, permissions } => if index < hardware.ram_regions.len() {
            SpuState {
                ram_regions: hardware.ram_regions.update(index as int, permissions),
                ..hardware
            }
        } else {
            hardware
        },
        RegisterWrite::FlashCallableSize { value } => SpuState {
            flash_callable_size: value,
            ..hardware
        },
        RegisterWrite::FlashCallableRegion { value } => SpuState {
            flash_callable_region: value,
            ..hardware
        },
        RegisterWrite::Peripheral { id } => if id < hardware.peripherals.len() {
            SpuState {
                peripherals: hardware.peripherals.update(id as int, nonsecure_peripheral()),
                ..hardware
            }
        } else {
            hardware
        },
        RegisterWrite::Pin { port, pin } => if port < hardware.gpio_ports.len() && pin < 32 {
            SpuState {
                gpio_ports: hardware.gpio_ports.update(
                    port as int,
                    hardware.gpio_ports[port as int] & !(1u32 << pin),
                ),
                ..hardware
            }
        } else {
            hardware
        },
        RegisterWrite::DppiChannel { port, channel } => if port < hardware.dppi.len() && channel
            < 32 {
            SpuState {
                dppi: hardware.dppi.update(
                    port as int,
                    hardware.dppi[port as int] & !(1u32 << channel),
                ),
                ..hardware
            }
        } else {
            hardware
        },
        RegisterWrite::SauControl { value } => SpuState { sau_control: value, ..hardware },
        RegisterWrite::NonSecureStackPointer { address } => SpuState {
            nonsecure_stack_pointer: address,
            ..hardware
        },
        RegisterWrite::InstructionBarrier => hardware,
        RegisterWrite::DataBarrier => hardware,
        RegisterWrite::InitializeNonSecureData => SpuState {
            nonsecure_data_initialized: true,
            ..hardware
        },
    }
}

/// The registers after a sequence of writes, made in order.
pub open spec fn applied_all(hardware: SpuState, writes: Seq<RegisterWrite>) -> SpuState
    decreases writes.len(),
{
    if writes.len() == 0 {
        hardware
    } else {
        applied(applied_all(hardware, writes.drop_last()), writes.last())
    }
}

impl Spu {
    /// Makes one write on the registers.
    pub fn apply(&mut self, write: RegisterWrite)
        ensures
            final(self)@ == applied(old(self)@, write),
    {
        match write {
            RegisterWrite::FlashRegion { index, permissions } => {
                if index < self.flash_regions.len() {
                    self.flash_regions.set(index, permissions);
                }
            },
            RegisterWrite::RamRegion { index, permissions } => {
                if index < self.ram_regions.len() {
                    self.ram_regions.set(index, permissions);
                }
            },
            RegisterWrite::FlashCallableSize { value } => {
                self.flash_callable_size = value;
            },
            RegisterWrite::FlashCallableRegion { value } => {
                self.flash_callable_region = value;
            },
            RegisterWrite::Peripheral { id } => {
                if id < self.peripherals.len() {
                    self.peripherals.set(
                        id,
                        PeripheralPermissions { secure: false, dma_secure: false },
                    );
                }
            },
            RegisterWrite::Pin { port, pin } => {
                if port < self.gpio_ports.len() && pin < 32 {
                    let bits = self.gpio_ports[port];
                    self.gpio_ports.set(port, bits & !(1u32 << pin));
                }
            },
            RegisterWrite::DppiChannel { port, channel } => {
                if port < self.dppi.len() && channel < 32 {
                    let bits = self.dppi[port];
                    self.dppi.set(port, bits & !(1u32 << channel));
                }
            },
            RegisterWrite::SauControl { value } => {
                self.sau_control = value;
            },
            RegisterWrite::NonSecureStackPointer { address } => {
                self.nonsecure_stack_pointer = address;
            },
            RegisterWrite::InstructionBarrier => {},
            RegisterWrite::DataBarrier => {},
            RegisterWrite::InitializeNonSecureData => {
                self.nonsecure_data_initialized = true;
            },
        }
    }

    /// Makes a sequence of writes on the registers, in order.
    pub fn replay(&mut self, writes: &[RegisterWrite])
        ensures
            final(self)@ == applied_all(old(self)@, writes@),
    {
        let mut index: usize = 0;
        while index < writes.len()
            invariant
                index <= writes.len(),
                self@ == applied_all(old(self)@, writes@.take(index as int)),
            decreases writes.len() - index,
        {
            proof {
                let upto = writes@.take(index as int + 1);
                assert(upto.drop_last() == writes@.take(index as int));
                assert(upto.last() == writes@[index as int]);
            }
            self.apply(writes[index]);
            index += 1;
        }
        proof {
            assert(writes@.take(writes.len() as int) == writes@);
        }
    }
}

/// Writes made one sequence after the other are the writes of the two
/// sequences in a row.
pub proof fn lemma_applied_all_concat(
    hardware: SpuState,
    first: Seq<RegisterWrite>,
    second: Seq<RegisterWrite>,
)
    ensures
        applied_all(hardware, first + second) == applied_all(applied_all(hardware, first), second),
    decreases second.len(),
{
    if second.len() == 0 {
        assert(first + second =~= first);
    } else {
        lemma_applied_all_concat(hardware, first, second.drop_last());
        assert((first + second).drop_last() =~= first + second.drop_last());
        assert((first + second).last() == second.last());
    }
}

proof fn lemma_applied_all_push(
    hardware: SpuState,
    writes: Seq<RegisterWrite>,
    write: RegisterWrite,
)
    ensures
        applied_all(hardware, writes.push(write)) == applied(applied_all(hardware, writes), write),
{
    assert(writes.push(write).drop_last() =~= writes);
}

/// The flash regions after the first `n` of them were set.
pub open spec fn flash_upto(
    chip: Chip,
    layout: MemoryLayout,
    regions: Seq<RegionPermissions>,
    n: int,
) -> Seq<RegionPermissions> {
    Seq::new(
        regions.len(),
        |i: int|
            if i < n {
                flash_after(chip, layout, regions)[i]
            } else {
                regions[i]
            },
    )
}

/// The RAM regions after the first `n` of them were set.
pub open spec fn ram_upto(
    chip: Chip,
    layout: MemoryLayout,
    regions: Seq<RegionPermissions>,
    n: int,
) -> Seq<RegionPermissions> {
    Seq::new(
        regions.len(),
        |i: int|
            if i < n {
                ram_after(chip, layout, regions)[i]
            } else {
                regions[i]
            },
    )
}

proof fn lemma_flash_writes_applied(chip: Chip, layout: MemoryLayout, hardware: SpuState, n: int)
    requires
        0 <= n <= hardware.flash_regions.len() <= usize::MAX,
    ensures
        applied_all(hardware, flash_writes(chip, layout, hardware.flash_regions, n)) == (SpuState {
            flash_regions: flash_upto(chip, layout, hardware.flash_regions, n),
            ..hardware
        }),
    decreases n,
{
    let regions = hardware.flash_regions;
    if n == 0 {
        assert(flash_upto(chip, layout, regions, 0) =~= regions);
    } else {
        lemma_flash_writes_applied(chip, layout, hardware, n - 1);
        let before = flash_writes(chip, layout, regions, n - 1);
        let previous = SpuState {
            flash_regions: flash_upto(chip, layout, regions, n - 1),
            ..hardware
        };
        match wanted_flash(chip, layout, n - 1) {
            Some(permissions) => {
                if regions[n - 1] != permissions {
                    let write = RegisterWrite::FlashRegion { index: (n - 1) as usize, permissions };
                    lemma_applied_all_push(hardware, before, write);
                    assert(applied(previous, write).flash_regions =~= flash_upto(
                        chip,
                        layout,
                        regions,
                        n,
                    ));
                } else {
                    assert(flash_upto(chip, layout, regions, n) =~= flash_upto(
                        chip,
                        layout,
                        regions,
                        n - 1,
                    ));
                }
            },
            None => {
                assert(flash_upto(chip, layout, regions, n) =~= flash_upto(
                    chip,
                    layout,
                    regions,
                    n - 1,
                ));
            },
        }
    }
}

proof fn lemma_ram_writes_applied(chip: Chip, layout: MemoryLayout, hardware: SpuState, n: int)
    requires
        0 <= n <= hardware.ram_regions.len() <= usize::MAX,
    ensures
        applied_all(hardware, ram_writes(chip, layout, hardware.ram_regions, n)) == (SpuState {
            ram_regions: ram_upto(chip, layout, hardware.ram_regions, n),
            ..hardware
        }),
    decreases n,
{
    let regions = hardware.ram_regions;
    if n == 0 {
        assert(ram_upto(chip, layout, regions, 0) =~= regions);
    } else {
        lemma_ram_writes_applied(chip, layout, hardware, n - 1);
        let before = ram_writes(chip, layout, regions, n - 1);
        let previous = SpuState { ram_regions: ram_upto(chip, layout, regions, n - 1), ..hardware };
        match wanted_ram(chip, layout, n - 1) {
            Some(permissions) => {
                if regions[n - 1] != permissions {
                    let write = RegisterWrite::RamRegion { index: (n - 1) as usize, permissions };
                    lemma_applied_all_push(hardware, before, write);
                    assert(applied(previous, write).ram_regions =~= ram_upto(
                        chip,
                        layout,
                        regions,
                        n,
                    ));
                } else {
                    assert(ram_upto(chip, layout, regions, n) =~= ram_upto(
                        chip,
                        layout,
                        regions,
                        n - 1,
                    ));
                }
            },
            None => {
                assert(ram_upto(chip, layout, regions, n) =~= ram_upto(
                    chip,
                    layout,
                    regions,
                    n - 1,
                ));
            },
        }
    }
}

proof fn lemma_peripheral_writes_applied(
    listed: Seq<NonSecurePeripheral>,
    hardware: SpuState,
    n: int,
)
    requires
        0 <= n <= listed.len(),
        forall|j: int|
            0 <= j < listed.len() ==> (#[trigger] listed[j]).number() < hardware.peripherals.len(),
    ensures
        applied_all(hardware, peripheral_writes(listed).take(n)) == (SpuState {
            peripherals: peripherals_after(listed, hardware.peripherals, n),
            ..hardware
        }),
    decreases n,
{
    if n == 0 {
        assert(peripherals_after(listed, hardware.peripherals, 0) =~= hardware.peripherals);
    } else {
        lemma_peripheral_writes_applied(listed, hardware, n - 1);
        let id = listed[n - 1].number();
        let write = RegisterWrite::Peripheral { id };
        let before = peripheral_writes(listed).take(n - 1);
        assert(peripheral_writes(listed).take(n) =~= before.push(write));
        lemma_applied_all_push(hardware, before, write);
        let previous = SpuState {
            peripherals: peripherals_after(listed, hardware.peripherals, n - 1),
            ..hardware
        };
        assert forall|other: int| 0 <= other < hardware.peripherals.len() implies is_listed(
            listed,
            other,
            n,
        ) == (is_listed(listed, other, n - 1) || other == id) by {
            if is_listed(listed, other, n) {
                let j = choose|j: int| 0 <= j < n && (#[trigger] listed[j]).number() == other;
                if j < n - 1 {
                    assert(is_listed(listed, other, n - 1));
                }
            }
            if is_listed(listed, other, n - 1) {
                let j = choose|j: int| 0 <= j < n - 1 && (#[trigger] listed[j]).number() == other;
                assert(listed[j].number() == other);
            }
            if other == id {
                assert(listed[n - 1].number() == other);
            }
        }
        assert(applied(previous, write).peripherals =~= peripherals_after(
            listed,
            hardware.peripherals,
            n,
        ));
    }
}

proof fn lemma_pin_writes_applied(lines: Seq<(usize, u32)>, hardware: SpuState, n: int)
    requires
        0 <= n <= lines.len(),
        forall|j: int|
            0 <= j < lines.len() ==> is_known_bit(
                #[trigger] lines[j],
                hardware.gpio_ports.len() as int,
            ),
    ensures
        applied_all(hardware, pin_writes(lines).take(n)) == (SpuState {
            gpio_ports: ports_after(lines, hardware.gpio_ports, n),
            ..hardware
        }),
    decreases n,
{
    if n == 0 {
        assert(ports_after(lines, hardware.gpio_ports, 0) =~= hardware.gpio_ports);
    } else {
        lemma_pin_writes_applied(lines, hardware, n - 1);
        let write = RegisterWrite::Pin { port: lines[n - 1].0, pin: lines[n - 1].1 };
        let before = pin_writes(lines).take(n - 1);
        assert(pin_writes(lines).take(n) =~= before.push(write));
        lemma_applied_all_push(hardware, before, write);
        let previous = SpuState {
            gpio_ports: ports_after(lines, hardware.gpio_ports, n - 1),
            ..hardware
        };
        assert(is_known_bit(lines[n - 1], hardware.gpio_ports.len() as int));
        assert(applied(previous, write).gpio_ports =~= ports_after(lines, hardware.gpio_ports, n));
    }
}

proof fn lemma_dppi_writes_applied(lines: Seq<(usize, u32)>, hardware: SpuState, n: int)
    requires
        0 <= n <= lines.len(),
        forall|j: int|
            0 <= j < lines.len() ==> is_known_bit(#[trigger] lines[j], hardware.dppi.len() as int),
    ensures
        applied_all(hardware, dppi_writes(lines).take(n)) == (SpuState {
            dppi: ports_after(lines, hardware.dppi, n),
            ..hardware
        }),
    decreases n,
{
    if n == 0 {
        assert(ports_after(lines, hardware.dppi, 0) =~= hardware.dppi);
    } else {
        lemma_dppi_writes_applied(lines, hardware, n - 1);
        let write = RegisterWrite::DppiChannel { port: lines[n - 1].0, channel: lines[n - 1].1 };
        let before = dppi_writes(lines).take(n - 1);
        assert(dppi_writes(lines).take(n) =~= before.push(write));
        lemma_applied_all_push(hardware, before, write);
        let previous = SpuState { dppi: ports_after(lines, hardware.dppi, n - 1), ..hardware };
        assert(is_known_bit(lines[n - 1], hardware.dppi.len() as int));
        assert(applied(previous, write).dppi =~= ports_after(lines, hardware.dppi, n));
    }
}

/// The writes that the initializer lists are the whole of what it does:
/// made in order on the registers that it found, they leave the registers
/// partitioned.
pub proof fn lemma_writes_partition(request: Request, hardware: SpuState)
    requires
        refusal(request, hardware) is None,
        hardware.flash_regions.len() <= usize::MAX,
        hardware.ram_regions.len() <= usize::MAX,
    ensures
        applied_all(hardware, write_sequence(request, hardware)) == partitioned(request, hardware),
{
    let chip = request.chip;
    let layout = request.layout;
    let flash = flash_writes(
        chip,
        layout,
        hardware.flash_regions,
        hardware.flash_regions.len() as int,
    );
    let ram = ram_writes(chip, layout, hardware.ram_regions, hardware.ram_regions.len() as int);
    let callable = callable_writes(chip, layout);
    let peripherals = peripheral_writes(request.peripherals);
    let pins = pin_writes(request.pins);
    let dppi = dppi_writes(request.dppi);
    let handover = handover_writes(layout);

    lemma_all_peripherals_known(
        request.peripherals,
        hardware.peripherals.len() as int,
        request.peripherals.len() as int,
    );
    lemma_all_bits_known(request.pins, hardware.gpio_ports.len() as int, request.pins.len() as int);
    lemma_all_bits_known(request.dppi, hardware.dppi.len() as int, request.dppi.len() as int);

    lemma_flash_writes_applied(chip, layout, hardware, hardware.flash_regions.len() as int);
    let s1 = applied_all(hardware, flash);
    assert(s1.flash_regions =~= flash_after(chip, layout, hardware.flash_regions));

    lemma_ram_writes_applied(chip, layout, s1, s1.ram_regions.len() as int);
    let s2 = applied_all(s1, ram);
    assert(s2.ram_regions =~= ram_after(chip, layout, hardware.ram_regions));

    reveal_with_fuel(applied_all, 6);
    let s3 = applied_all(s2, callable);
    assert(callable.drop_last() =~= seq![callable[0]]);
    assert(callable.drop_last().drop_last() =~= Seq::<RegisterWrite>::empty());
    assert(s3 == (SpuState {
        flash_callable_size: callable_size_register(chip, layout) as u32,
        flash_callable_region: callable_region_register(chip, layout),
        ..s2
    }));

    lemma_peripheral_writes_applied(request.peripherals, s3, request.peripherals.len() as int);
    assert(peripherals.take(request.peripherals.len() as int) =~= peripherals);
    let s4 = applied_all(s3, peripherals);

    lemma_pin_writes_applied(request.pins, s4, request.pins.len() as int);
    assert(pins.take(request.pins.len() as int) =~= pins);
    let s5 = applied_all(s4, pins);

    lemma_dppi_writes_applied(request.dppi, s5, request.dppi.len() as int);
    assert(dppi.take(request.dppi.len() as int) =~= dppi);
    let s6 = applied_all(s5, dppi);

    let s7 = applied_all(s6, handover);
    let h1 = handover.drop_last();
    let h2 = h1.drop_last();
    let h3 = h2.drop_last();
    let h4 = h3.drop_last();
    assert(h4.drop_last() =~= Seq::<RegisterWrite>::empty());
    assert(s7 == (SpuState {
        sau_control: SAU_ALL_NONSECURE,
        nonsecure_stack_pointer: layout.nonsecure_ram.end,
        nonsecure_data_initialized: true,
        ..s6
    }));

    lemma_applied_all_concat(hardware, flash, ram);
    lemma_applied_all_concat(hardware, flash + ram, callable);
    lemma_applied_all_concat(hardware, flash + ram + callable, peripherals);
    lemma_applied_all_concat(hardware, flash + ram + callable + peripherals, pins);
    lemma_applied_all_concat(hardware, flash + ram + callable + peripherals + pins, dppi);
    lemma_applied_all_concat(
        hardware,
        flash + ram + callable + peripherals + pins + dppi,
        handover,
    );
    assert(s7 == partitioned(request, hardware));
}

} // verus!
