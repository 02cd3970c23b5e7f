use trustzone_m::attribution::{flash_world_of, ram_world_of};
use trustzone_m::generic::{Sau, SauRegion};
use trustzone_m::memory::{Domain, MemoryLayout, MemoryRegion};
use trustzone_m::nrf::{Chip, PeripheralPermissions, RegionPermissions, Spu};

const SECURE: RegionPermissions =
    RegionPermissions { execute: true, read: true, write: true, secure: true };

fn layout() -> MemoryLayout {
    MemoryLayout {
        secure_flash: MemoryRegion::new(0, 0x3F000),
        callable_flash: MemoryRegion::new(0x3F000, 0x40000),
        nonsecure_flash: MemoryRegion::new(0x40000, 0x10_0000),
        secure_ram: MemoryRegion::new(0x2000_0000, 0x2001_0000),
        nonsecure_ram: MemoryRegion::new(0x2001_0000, 0x2004_0000),
    }
}

fn spu() -> Spu {
    Spu {
        flash_regions: vec![SECURE; 32],
        ram_regions: vec![SECURE; 32],
        flash_callable_size: 0,
        flash_callable_region: 0,
        peripherals: vec![PeripheralPermissions { secure: true, dma_secure: true }; 67],
        gpio_ports: vec![0xFFFF_FFFF],
        dppi: vec![0xFFFF_FFFF],
        sau_control: 0,
        nonsecure_stack_pointer: 0,
        nonsecure_data_initialized: false,
    }
}

fn sau() -> Sau {
    let idle = SauRegion { base_address: 0, limit_address: 0x1F, attribute: Domain::Secure };
    Sau {
        regions: vec![idle; 8],
        enabled: false,
        nonsecure_stack_pointer: 0,
        nonsecure_data_initialized: false,
    }
}

const FLASH_ADDRESSES: [u32; 9] =
    [0, 0x7FFF, 0x3EFFF, 0x3F000, 0x3F800, 0x3FFFF, 0x40000, 0x8_1234, 0xF_FFFF];

const RAM_ADDRESSES: [u32; 6] =
    [0x2000_0000, 0x2000_FFFF, 0x2001_0000, 0x2001_2345, 0x2003_E000, 0x2003_FFFF];

#[test]
fn before_partitioning_everything_is_secure() {
    let chip = Chip::nrf9160();
    let spu = spu();
    let sau = sau();
    for address in FLASH_ADDRESSES {
        assert_eq!(flash_world_of(&chip, &spu, address), Some(Domain::Secure));
        assert_eq!(sau.world_of(address), Domain::Secure);
    }
    for address in RAM_ADDRESSES {
        assert_eq!(ram_world_of(&chip, &spu, address), Some(Domain::Secure));
        assert_eq!(sau.world_of(address), Domain::Secure);
    }
}

#[test]
fn both_units_give_every_address_to_the_world_that_the_layout_names() {
    let chip = Chip::nrf9160();
    let layout = layout();
    let mut spu = spu();
    trustzone_m::nrf::initialize(&chip, &layout, &[], &[], &[], &mut spu).unwrap();
    let mut sau = sau();
    trustzone_m::generic::initialize(&layout, &mut sau).unwrap();
    for address in FLASH_ADDRESSES {
        let named = layout.domain(address);
        assert!(named.is_some());
        assert_eq!(flash_world_of(&chip, &spu, address), named);
        assert_eq!(Some(sau.world_of(address)), named);
    }
    for address in RAM_ADDRESSES {
        let named = layout.domain(address);
        assert!(named.is_some());
        assert_eq!(ram_world_of(&chip, &spu, address), named);
        assert_eq!(Some(sau.world_of(address)), named);
    }
    assert_eq!(flash_world_of(&chip, &spu, 0x3F000), Some(Domain::NonSecureCallable));
    assert_eq!(flash_world_of(&chip, &spu, 0x3EFFF), Some(Domain::Secure));
    assert_eq!(flash_world_of(&chip, &spu, 0x40000), Some(Domain::NonSecure));
    assert_eq!(ram_world_of(&chip, &spu, 0x2001_0000), Some(Domain::NonSecure));
}

#[test]
fn addresses_that_the_layout_does_not_name_stay_secure() {
    let layout = layout();
    let mut sau = sau();
    trustzone_m::generic::initialize(&layout, &mut sau).unwrap();
    assert_eq!(sau.world_of(0x10_0000), Domain::Secure);
    assert_eq!(sau.world_of(0x5000_0000), Domain::Secure);
    assert_eq!(sau.world_of(u32::MAX), Domain::Secure);
}

#[test]
fn addresses_outside_the_regions_of_the_unit_have_no_world() {
    let chip = Chip::nrf9160();
    let spu = spu();
    assert_eq!(flash_world_of(&chip, &spu, 0x10_0000), None);
    assert_eq!(flash_world_of(&chip, &spu, 0xF_FFFF), Some(Domain::Secure));
    assert_eq!(ram_world_of(&chip, &spu, 0x1FFF_FFFF), None);
    assert_eq!(ram_world_of(&chip, &spu, 0x2004_0000), None);
    assert_eq!(ram_world_of(&chip, &spu, 0x2003_FFFF), Some(Domain::Secure));
}

#[test]
fn a_callable_range_in_a_non_secure_region_is_not_callable() {
    let chip = Chip::nrf9160();
    let mut spu = spu();
    spu.flash_callable_size = 8;
    spu.flash_callable_region = 7;
    assert_eq!(flash_world_of(&chip, &spu, 0x3F000), Some(Domain::NonSecureCallable));
    assert_eq!(flash_world_of(&chip, &spu, 0x3EFFF), Some(Domain::Secure));
    spu.flash_regions[7].secure = false;
    assert_eq!(flash_world_of(&chip, &spu, 0x3F000), Some(Domain::NonSecure));
}

#[test]
fn the_callable_range_grows_with_the_size_register() {
    let chip = Chip::nrf9160();
    let mut spu = spu();
    spu.flash_callable_region = 7;
    for (size_register, first) in [(1u32, 0x3FFE0u32), (2, 0x3FFC0), (5, 0x3FE00), (8, 0x3F000)] {
        spu.flash_callable_size = size_register;
        assert_eq!(flash_world_of(&chip, &spu, first), Some(Domain::NonSecureCallable));
        assert_eq!(flash_world_of(&chip, &spu, first - 1), Some(Domain::Secure));
        assert_eq!(flash_world_of(&chip, &spu, 0x3FFFF), Some(Domain::NonSecureCallable));
        assert_eq!(flash_world_of(&chip, &spu, 0x40000), Some(Domain::Secure));
    }
    spu.flash_callable_size = 0;
    assert_eq!(flash_world_of(&chip, &spu, 0x3FFFF), Some(Domain::Secure));
    spu.flash_callable_size = 200;
    assert_eq!(flash_world_of(&chip, &spu, 0), Some(Domain::NonSecureCallable));
    assert_eq!(flash_world_of(&chip, &spu, 0x40000), Some(Domain::Secure));
}

#[test]
fn an_address_in_two_regions_of_the_unit_is_secure() {
    let mut sau = sau();
    sau.enabled = true;
    sau.regions[0] =
        SauRegion { base_address: 0x1000, limit_address: 0x1FFF, attribute: Domain::NonSecure };
    sau.regions[5] = SauRegion {
        base_address: 0x1800,
        limit_address: 0x27FF,
        attribute: Domain::NonSecureCallable,
    };
    assert_eq!(sau.world_of(0x1000), Domain::NonSecure);
    assert_eq!(sau.world_of(0x1800), Domain::Secure);
    assert_eq!(sau.world_of(0x1FFF), Domain::Secure);
    assert_eq!(sau.world_of(0x2000), Domain::NonSecureCallable);
    assert_eq!(sau.world_of(0x2800), Domain::Secure);
    sau.enabled = false;
    assert_eq!(sau.world_of(0x1000), Domain::Secure);
}

#[test]
fn both_units_agree_where_the_veneers_fill_no_power_of_two() {
    let chip = Chip::nrf9160();
    let layout = MemoryLayout {
        secure_flash: MemoryRegion::new(0, 0x7000),
        callable_flash: MemoryRegion::new(0x7400, 0x8000),
        nonsecure_flash: MemoryRegion::new(0x8000, 0x10_0000),
        secure_ram: MemoryRegion::new(0x2000_0000, 0x2001_0000),
        nonsecure_ram: MemoryRegion::new(0x2001_0000, 0x2004_0000),
    };
    let mut spu = spu();
    trustzone_m::nrf::initialize(&chip, &layout, &[], &[], &[], &mut spu).unwrap();
    let mut sau = sau();
    trustzone_m::generic::initialize(&layout, &mut sau).unwrap();
    for address in [0u32, 0x6FFF, 0x7400, 0x7BFF, 0x7FFF, 0x8000, 0xF_FFFF, 0x2000_0000, 0x2003_FFFF] {
        let named = layout.domain(address);
        assert!(named.is_some());
        let by_spu = if address < 0x2000_0000 {
            flash_world_of(&chip, &spu, address)
        } else {
            ram_world_of(&chip, &spu, address)
        };
        assert_eq!(by_spu, named);
        assert_eq!(Some(sau.world_of(address)), named);
    }
    assert_eq!(flash_world_of(&chip, &spu, 0x7400), Some(Domain::NonSecureCallable));
    assert_eq!(sau.world_of(0x7400), Domain::NonSecureCallable);
}
