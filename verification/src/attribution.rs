//! What the registers of the System Protection Unit mean for a single
//! address, that the partition initializer gives every address of the
//! memory layout to the world that the layout names, and that it does so as
//! the initializer for the Security Attribution Unit does.

use crate::generic::{attribution, SauState};
use crate::memory::{Domain, MemoryLayout};
use crate::nrf::{
    callable_region, callable_region_register, callable_size_register, callable_window,
    lemma_size_register_is_smallest, marked_high, marked_low, partitioned, refusal,
    secure_region, wanted_flash, wanted_ram, window_bytes, Chip, Request, Spu, SpuState,
};
use vstd::arithmetic::div_mod::{lemma_div_is_ordered, lemma_fundamental_div_mod};
use vstd::prelude::*;

verus! {

/// The first address of the range that the unit marks as callable: the range
/// ends with the flash region that the region register names.
pub open spec fn callable_low(chip: Chip, hardware: SpuState) -> int {
    callable_high(chip, hardware) - window_bytes(hardware.flash_callable_size as nat)
}

/// The address behind the range that the unit marks as callable.
pub open spec fn callable_high(chip: Chip, hardware: SpuState) -> int {
    (hardware.flash_callable_region + 1) * chip.flash_region_size
}

/// The world that the unit gives a flash address to: that of the flash
/// region around it, and inside a secure region the callable range apart.
pub open spec fn flash_attribution(chip: Chip, hardware: SpuState, address: int) -> Option<Domain> {
    let index = address / chip.flash_region_size as int;
    if 0 <= address && index < hardware.flash_regions.len() {
        if !hardware.flash_regions[index].secure {
            Some(Domain::NonSecure)
        } else if callable_low(chip, hardware) <= address < callable_high(chip, hardware) {
            Some(Domain::NonSecureCallable)
        } else {
            Some(Domain::Secure)
        }
    } else {
        None
    }
}

/// The world that the unit gives a RAM address to: that of the RAM region
/// around it.
pub open spec fn ram_attribution(chip: Chip, hardware: SpuState, address: int) -> Option<Domain> {
    let index = (address - chip.ram_start) / chip.ram_region_size as int;
    if chip.ram_start <= address && index < hardware.ram_regions.len() {
        if hardware.ram_regions[index].secure {
            Some(Domain::Secure)
        } else {
            Some(Domain::NonSecure)
        }
    } else {
        None
    }
}

proof fn lemma_region_start(address: int, size: int, start: int)
    requires
        size > 0,
        0 <= start <= address,
        start % size == 0,
    ensures
        start <= (address / size) * size <= address,
        address < (address / size) * size + size,
{
    lemma_fundamental_div_mod(address, size);
    lemma_fundamental_div_mod(start, size);
    lemma_div_is_ordered(start, address, size);
    let q = address / size;
    let p = start / size;
    assert(0 <= address % size < size);
    assert(size * p <= size * q) by (nonlinear_arith)
        requires
            p <= q,
            size > 0,
    ;
    assert(size * q == q * size) by (nonlinear_arith);
    assert(size * p == start);
}

proof fn lemma_same_region(address: int, size: int, start: int)
    requires
        size > 0,
        0 <= start <= address < (start / size + 1) * size,
    ensures
        address / size == start / size,
        (start / size + 1) * size == start + (size - start % size),
{
    lemma_fundamental_div_mod(start, size);
    lemma_fundamental_div_mod(address, size);
    lemma_div_is_ordered(start, address, size);
    let q = start / size;
    let a = address / size;
    assert(0 <= start % size < size);
    assert(0 <= address % size < size);
    assert((q + 1) * size == size * q + size) by (nonlinear_arith);
    assert(a < q + 1) by (nonlinear_arith)
        requires
            size * a <= address,
            address < size * q + size,
            size > 0,
    ;
}

proof fn lemma_size_register_is_window(register: nat)
    requires
        register >= 1,
    ensures
        window_bytes(register) >= 32,
        window_bytes(register + 1) == 2 * window_bytes(register),
    decreases register,
{
    if register > 1 {
        lemma_size_register_is_window((register - 1) as nat);
    }
}

/// What an accepted request has the unit mark as callable: a range that ends
/// where the gateway veneers end, that holds them all, that is the smallest
/// such range that the size register can say, and that holds no address of
/// secure or of non-secure flash.
pub proof fn lemma_callable_range_is_smallest(request: Request, hardware: SpuState)
    requires
        request.chip.well_formed(),
        refusal(request, hardware) is None,
    ensures
        ({
            let after = partitioned(request, hardware);
            let veneers = request.layout.callable_flash;
            let low = callable_low(request.chip, after);
            let high = callable_high(request.chip, after);
            let register = after.flash_callable_size as nat;
            &&& low == marked_low(request.chip, request.layout)
            &&& high == marked_high(request.chip, request.layout)
            &&& 1 <= register <= 28
            &&& high - low == window_bytes(register)
            &&& low <= veneers.start < high
            &&& veneers.start < veneers.end ==> veneers.end == high
            &&& register == 1 || window_bytes((register - 1) as nat) < high - veneers.start
            &&& forall|address: int|
                low <= address < high ==> !request.layout.secure_flash.holds(address)
                    && !request.layout.nonsecure_flash.holds(address)
        }),
{
    let chip = request.chip;
    let layout = request.layout;
    let size = chip.flash_region_size as int;
    let start = layout.callable_flash.start as int;
    let window = callable_window(chip, layout);
    let after = partitioned(request, hardware);
    lemma_fundamental_div_mod(start, size);
    assert(0 <= start % size < size);
    let region = callable_region(chip, layout);
    assert((region + 1) * size == size * region + size) by (nonlinear_arith);
    assert(marked_high(chip, layout) == start + window);
    lemma_size_register_is_smallest(window as nat);
    crate::nrf::lemma_size_register_fits(window as nat);
    assert(callable_region_register(chip, layout) == region) by {
        let quotient = layout.callable_flash.start / chip.flash_region_size;
        assert(quotient & 0x3F == quotient) by (bit_vector)
            requires
                quotient < 64,
        ;
    }
}

/// After the initializer has run, the unit gives every flash address of the
/// layout to the world that the layout names, as far as it has a flash
/// region for the address.
pub proof fn lemma_flash_attribution_follows_layout(
    request: Request,
    hardware: SpuState,
    address: int,
)
    requires
        request.chip.well_formed(),
        refusal(request, hardware) is None,
        request.layout.secure_flash.holds(address) || request.layout.callable_flash.holds(address)
            || request.layout.nonsecure_flash.holds(address),
        (address / request.chip.flash_region_size as int) < hardware.flash_regions.len(),
    ensures
        flash_attribution(request.chip, partitioned(request, hardware), address)
            == request.layout.domain_of(address),
{
    let chip = request.chip;
    let layout = request.layout;
    let size = chip.flash_region_size as int;
    let after = partitioned(request, hardware);
    let index = address / size;
    let ranges = layout.regions();
    reveal_with_fuel(crate::nrf::first_misaligned_below, 9);
    assert(layout.secure_flash.start as int % size == 0);
    assert(layout.nonsecure_flash.start as int % size == 0);
    assert forall|i: int, j: int| 0 <= i < j < 5 implies !(#[trigger] ranges[i]).overlaps(
        #[trigger] ranges[j],
    ) by {}
    assert(ranges[0] == layout.secure_flash && ranges[1] == layout.callable_flash && ranges[2]
        == layout.nonsecure_flash && ranges[3] == layout.secure_ram && ranges[4]
        == layout.nonsecure_ram);
    assert(!ranges[0].overlaps(ranges[1]) && !ranges[0].overlaps(ranges[2]) && !ranges[1].overlaps(
        ranges[2],
    ));
    assert(!ranges[0].overlaps(ranges[3]) && !ranges[2].overlaps(ranges[3]) && !ranges[2].overlaps(
        ranges[4],
    ));
    lemma_callable_range_is_smallest(request, hardware);
    let low = callable_low(chip, after);
    let high = callable_high(chip, after);
    let region = callable_region(chip, layout);

    if layout.callable_flash.holds(address) {
        lemma_same_region(address, size, layout.callable_flash.start as int);
        assert(index == region);
        assert(after.flash_regions[index] == secure_region());
    } else if layout.secure_flash.holds(address) {
        lemma_region_start(address, size, layout.secure_flash.start as int);
        assert(layout.secure_flash.holds(index * size));
        assert(after.flash_regions[index] == secure_region());
        assert(!(low <= address < high));
    } else {
        lemma_region_start(address, size, layout.nonsecure_flash.start as int);
        let first = index * size;
        assert(layout.nonsecure_flash.holds(first));
        assert(!layout.secure_flash.holds(first));
        assert(!layout.callable_flash.holds(first));
        assert(!after.flash_regions[index].secure);
    }
}

/// After the initializer has run, the unit gives every RAM address of the
/// layout to the world that the layout names, as far as it has a RAM region
/// for the address.
pub proof fn lemma_ram_attribution_follows_layout(
    request: Request,
    hardware: SpuState,
    address: int,
)
    requires
        request.chip.well_formed(),
        request.chip.ram_start as int % request.chip.ram_region_size as int == 0,
        refusal(request, hardware) is None,
        request.layout.secure_ram.holds(address) || request.layout.nonsecure_ram.holds(address),
        request.chip.ram_start <= address,
        ((address - request.chip.ram_start) / request.chip.ram_region_size as int)
            < hardware.ram_regions.len(),
    ensures
        ram_attribution(request.chip, partitioned(request, hardware), address)
            == request.layout.domain_of(address),
{
    let chip = request.chip;
    let layout = request.layout;
    let size = chip.ram_region_size as int;
    let base = chip.ram_start as int;
    let after = partitioned(request, hardware);
    let index = (address - base) / size;
    let ranges = layout.regions();
    reveal_with_fuel(crate::nrf::first_misaligned_below, 9);
    assert(layout.secure_ram.start as int % size == 0);
    assert(layout.nonsecure_ram.start as int % size == 0);
    assert forall|i: int, j: int| 0 <= i < j < 5 implies !(#[trigger] ranges[i]).overlaps(
        #[trigger] ranges[j],
    ) by {}
    assert(ranges[0] == layout.secure_flash && ranges[1] == layout.callable_flash && ranges[2]
        == layout.nonsecure_flash && ranges[3] == layout.secure_ram && ranges[4]
        == layout.nonsecure_ram);
    assert(!ranges[1].overlaps(ranges[3]) && !ranges[1].overlaps(ranges[4]) && !ranges[3].overlaps(
        ranges[4],
    ));

    let range = if layout.secure_ram.holds(address) {
        layout.secure_ram
    } else {
        layout.nonsecure_ram
    };
    let first = base + index * size;
    assert(range.holds(first)) by {
        if range.start <= base {
            lemma_region_start(address - base, size, 0);
        } else {
            let offset = range.start as int - base;
            lemma_fundamental_div_mod(range.start as int, size);
            lemma_fundamental_div_mod(base, size);
            let p = range.start as int / size;
            let b = base / size;
            assert(offset == size * (p - b)) by (nonlinear_arith)
                requires
                    offset == size * p - size * b,
            ;
            assert(offset % size == 0) by {
                vstd::arithmetic::div_mod::lemma_mod_multiples_basic(p - b, size);
                assert(size * (p - b) == (p - b) * size) by (nonlinear_arith);
            }
            lemma_region_start(address - base, size, offset);
        }
    }
    assert(chip.ram_address(index) == first);
    if layout.secure_ram.holds(address) {
        assert(wanted_ram(chip, layout, index) == Some(secure_region()));
        assert(after.ram_regions[index] == secure_region());
    } else {
        assert(!layout.secure_ram.holds(first));
        assert(!after.ram_regions[index].secure);
    }
}

/// The two initializers classify alike: on a layout that both accept, the
/// System Protection Unit and the Security Attribution Unit give every flash
/// and every RAM address of the layout to the same world, as far as the
/// System Protection Unit has a region for the address and the regions of the
/// Security Attribution Unit that the initializer does not set claim nothing.
pub proof fn lemma_units_agree(
    request: Request,
    spu: SpuState,
    sau: SauState,
    address: int,
)
    requires
        request.chip.well_formed(),
        request.chip.ram_start as int % request.chip.ram_region_size as int == 0,
        refusal(request, spu) is None,
        crate::generic::refusal(request.layout, sau.regions.len() as int) is None,
        forall|i: int|
            crate::generic::PLANNED_REGIONS <= i < sau.regions.len() ==> (
            #[trigger] sau.regions[i]).attribute == Domain::Secure,
    ensures
        (request.layout.secure_flash.holds(address) || request.layout.callable_flash.holds(address)
            || request.layout.nonsecure_flash.holds(address)) && (address
            / request.chip.flash_region_size as int) < spu.flash_regions.len()
            ==> flash_attribution(request.chip, partitioned(request, spu), address) == Some(
            attribution(crate::generic::partitioned(request.layout, sau), address),
        ),
        (request.layout.secure_ram.holds(address) || request.layout.nonsecure_ram.holds(address))
            && request.chip.ram_start <= address && ((address - request.chip.ram_start)
            / request.chip.ram_region_size as int) < spu.ram_regions.len() ==> ram_attribution(
            request.chip,
            partitioned(request, spu),
            address,
        ) == Some(attribution(crate::generic::partitioned(request.layout, sau), address)),
{
    let layout = request.layout;
    crate::generic::lemma_attribution_follows_layout(layout, sau, address);
    if (layout.secure_flash.holds(address) || layout.callable_flash.holds(address)
        || layout.nonsecure_flash.holds(address)) && (address
        / request.chip.flash_region_size as int) < spu.flash_regions.len() {
        lemma_flash_attribution_follows_layout(request, spu, address);
    }
    if (layout.secure_ram.holds(address) || layout.nonsecure_ram.holds(address))
        && request.chip.ram_start <= address && ((address - request.chip.ram_start)
        / request.chip.ram_region_size as int) < spu.ram_regions.len() {
        lemma_ram_attribution_follows_layout(request, spu, address);
    }
}

proof fn lemma_window_grows(smaller: nat, larger: nat)
    requires
        1 <= smaller < larger,
    ensures
        window_bytes(larger) >= 2 * window_bytes(smaller),
        window_bytes(smaller) >= 32,
    decreases larger,
{
    lemma_size_register_is_window(smaller);
    if larger > smaller + 1 {
        lemma_window_grows(smaller, (larger - 1) as nat);
    }
}

/// Whether an address lies in the range that the unit marks as callable.
fn in_callable_range(chip: &Chip, hardware: &Spu, address: u32) -> (inside: bool)
    requires
        chip.well_formed(),
    ensures
        inside == (callable_low(*chip, hardware@) <= address < callable_high(*chip, hardware@)),
{
    let wanted = hardware.flash_callable_size;
    proof {
        assert(0 <= (hardware.flash_callable_region as int + 1) * chip.flash_region_size as int
            <= 0x1_0000_0000 * 0xFFFF_FFFF) by (nonlinear_arith)
            requires
                0 <= hardware.flash_callable_region <= 0xFFFF_FFFF,
                0 <= chip.flash_region_size <= 0xFFFF_FFFF,
        ;
    }
    let high: u64 = (hardware.flash_callable_region as u64 + 1) * chip.flash_region_size as u64;
    if address as u64 >= high || wanted == 0 {
        return false;
    }
    let mut bytes: u128 = 32;
    let mut steps: u32 = 1;
    while steps < wanted && bytes < 0x1_0000_0000_0000_0000
        invariant
            1 <= steps <= wanted,
            bytes == window_bytes(steps as nat),
            32 <= bytes < 0x2_0000_0000_0000_0000,
        decreases wanted - steps,
    {
        bytes = bytes * 2;
        steps += 1;
    }
    if steps < wanted {
        proof {
            lemma_window_grows(steps as nat, wanted as nat);
        }
        true
    } else {
        bytes >= (high - address as u64) as u128
    }
}

/// The world that the unit gives a flash address to.
pub fn flash_world_of(chip: &Chip, hardware: &Spu, address: u32) -> (world: Option<Domain>)
    requires
        chip.well_formed(),
    ensures
        world == flash_attribution(*chip, hardware@, address as int),
{
    let index = (address / chip.flash_region_size) as usize;
    if index < hardware.flash_regions.len() {
        if !hardware.flash_regions[index].secure {
            Some(Domain::NonSecure)
        } else if in_callable_range(chip, hardware, address) {
            Some(Domain::NonSecureCallable)
        } else {
            Some(Domain::Secure)
        }
    } else {
        None
    }
}

/// The world that the unit gives a RAM address to.
pub fn ram_world_of(chip: &Chip, hardware: &Spu, address: u32) -> (world: Option<Domain>)
    requires
        chip.well_formed(),
    ensures
        world == ram_attribution(*chip, hardware@, address as int),
{
    if address < chip.ram_start {
        return None;
    }
    let index = ((address - chip.ram_start) / chip.ram_region_size) as usize;
    if index < hardware.ram_regions.len() {
        if hardware.ram_regions[index].secure {
            Some(Domain::Secure)
        } else {
            Some(Domain::NonSecure)
        }
    } else {
        None
    }
}

} // verus!
