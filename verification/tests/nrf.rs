use trustzone_m::memory::{MemoryLayout, MemoryRegion};
use trustzone_m::nrf::{
    initialize, validate, Boundary, Chip, ConfigError, NonSecurePeripheral, PeripheralPermissions,
    RegionPermissions, RegisterWrite, Spu,
};

const SECURE: RegionPermissions =
    RegionPermissions { execute: true, read: true, write: true, secure: true };
const NONSECURE: RegionPermissions =
    RegionPermissions { execute: true, read: true, write: true, secure: false };

fn layout() -> MemoryLayout {
    MemoryLayout {
        secure_flash: MemoryRegion::new(0, 0x3F000),
        callable_flash: MemoryRegion::new(0x3F000, 0x40000),
        nonsecure_flash: MemoryRegion::new(0x40000, 0x10_0000),
        secure_ram: MemoryRegion::new(0x2000_0000, 0x2001_0000),
        nonsecure_ram: MemoryRegion::new(0x2001_0000, 0x2004_0000),
    }
}

fn reset() -> Spu {
    Spu {
        flash_regions: vec![SECURE; 32],
        ram_regions: vec![SECURE; 32],
        flash_callable_size: 0,
        flash_callable_region: 0,
        peripherals: vec![PeripheralPermissions { secure: true, dma_secure: true }; 67],
        gpio_ports: vec![0xFFFF_FFFF],
        dppi: vec![0xFFFF_FFFF],
        sau_control: 0,
        nonsecure_stack_pointer: 0,
        nonsecure_data_initialized: false,
    }
}

fn peripherals() -> Vec<NonSecurePeripheral> {
    vec![NonSecurePeripheral::new(8), NonSecurePeripheral::new(66)]
}

fn pins() -> Vec<(usize, u32)> {
    vec![(0, 0), (0, 1), (0, 30)]
}

fn dppi() -> Vec<(usize, u32)> {
    vec![(0, 0), (0, 15)]
}

fn handover() -> Vec<RegisterWrite> {
    vec![
        RegisterWrite::FlashCallableSize { value: 8 },
        RegisterWrite::FlashCallableRegion { value: 7 },
        RegisterWrite::Peripheral { id: 8 },
        RegisterWrite::Peripheral { id: 66 },
        RegisterWrite::Pin { port: 0, pin: 0 },
        RegisterWrite::Pin { port: 0, pin: 1 },
        RegisterWrite::Pin { port: 0, pin: 30 },
        RegisterWrite::DppiChannel { port: 0, channel: 0 },
        RegisterWrite::DppiChannel { port: 0, channel: 15 },
        RegisterWrite::SauControl { value: 2 },
        RegisterWrite::NonSecureStackPointer { address: 0x2004_0000 },
        RegisterWrite::InstructionBarrier,
        RegisterWrite::DataBarrier,
        RegisterWrite::InitializeNonSecureData,
    ]
}

fn refused(layout: &MemoryLayout) -> ConfigError {
    validate(&Chip::nrf9160(), layout, &peripherals(), &pins(), &dppi(), &reset()).unwrap_err()
}

#[test]
fn the_chips_have_their_region_sizes() {
    assert_eq!(Chip::nrf9160().flash_region_size, 32 * 1024);
    assert_eq!(Chip::nrf9160().ram_region_size, 8 * 1024);
    assert_eq!(Chip::nrf5340().flash_region_size, 16 * 1024);
    assert_eq!(Chip::nrf5340().ram_region_size, 8 * 1024);
    assert_eq!(Chip::nrf9160().ram_start, 0x2000_0000);
    assert_eq!(Chip::nrf5340().max_callable_size, 4096);
    assert_eq!(NonSecurePeripheral::new(42).id(), 42);
}

#[test]
fn initialize_writes_the_exact_sequence() {
    let mut hardware = reset();
    let writes =
        initialize(&Chip::nrf9160(), &layout(), &peripherals(), &pins(), &dppi(), &mut hardware)
            .unwrap();
    let mut expected = Vec::new();
    for index in 8..32 {
        expected.push(RegisterWrite::FlashRegion { index, permissions: NONSECURE });
    }
    for index in 8..32 {
        expected.push(RegisterWrite::RamRegion { index, permissions: NONSECURE });
    }
    expected.extend(handover());
    assert_eq!(writes.len(), 62);
    assert_eq!(writes, expected);
}

#[test]
fn initialize_leaves_the_registers_partitioned() {
    let mut hardware = reset();
    initialize(&Chip::nrf9160(), &layout(), &peripherals(), &pins(), &dppi(), &mut hardware)
        .unwrap();
    for index in 0..32 {
        let wanted = if index < 8 { SECURE } else { NONSECURE };
        assert_eq!(hardware.flash_regions[index], wanted);
        assert_eq!(hardware.ram_regions[index], wanted);
    }
    assert_eq!(hardware.flash_callable_size, 8);
    assert_eq!(hardware.flash_callable_region, 7);
    for id in 0..67 {
        let handed_over = id == 8 || id == 66;
        assert_eq!(hardware.peripherals[id].secure, !handed_over);
        assert_eq!(hardware.peripherals[id].dma_secure, !handed_over);
    }
    assert_eq!(hardware.gpio_ports, vec![0xBFFF_FFFC]);
    assert_eq!(hardware.dppi, vec![0xFFFF_7FFE]);
    assert_eq!(hardware.sau_control, 0b10);
    assert_eq!(hardware.nonsecure_stack_pointer, 0x2004_0000);
    assert!(hardware.nonsecure_data_initialized);
}

#[test]
fn initialize_twice_gives_the_same_registers_and_writes_no_region_again() {
    let mut hardware = reset();
    initialize(&Chip::nrf9160(), &layout(), &peripherals(), &pins(), &dppi(), &mut hardware)
        .unwrap();
    let flash = hardware.flash_regions.clone();
    let ram = hardware.ram_regions.clone();
    let peripherals_after = hardware.peripherals.clone();
    let again =
        initialize(&Chip::nrf9160(), &layout(), &peripherals(), &pins(), &dppi(), &mut hardware)
            .unwrap();
    assert_eq!(again, handover());
    assert_eq!(hardware.flash_regions, flash);
    assert_eq!(hardware.ram_regions, ram);
    assert_eq!(hardware.peripherals, peripherals_after);
    assert_eq!(hardware.gpio_ports, vec![0xBFFF_FFFC]);
    assert_eq!(hardware.dppi, vec![0xFFFF_7FFE]);
    assert_eq!(hardware.flash_callable_size, 8);
    assert_eq!(hardware.flash_callable_region, 7);
    assert_eq!(hardware.sau_control, 0b10);
    assert_eq!(hardware.nonsecure_stack_pointer, 0x2004_0000);
}

#[test]
fn regions_outside_every_range_are_left_alone() {
    let mut hardware = reset();
    hardware.flash_regions[31] = NONSECURE;
    hardware.flash_regions[3] = NONSECURE;
    let mut layout = layout();
    layout.nonsecure_flash = MemoryRegion::new(0x40000, 0x80000);
    let writes = initialize(&Chip::nrf9160(), &layout, &[], &[], &[], &mut hardware).unwrap();
    assert_eq!(writes[0], RegisterWrite::FlashRegion { index: 3, permissions: SECURE });
    for index in 8..16 {
        assert_eq!(
            writes[index - 7],
            RegisterWrite::FlashRegion { index, permissions: NONSECURE }
        );
        assert_eq!(hardware.flash_regions[index], NONSECURE);
    }
    for index in 16..31 {
        assert_eq!(hardware.flash_regions[index], SECURE);
    }
    assert_eq!(hardware.flash_regions[31], NONSECURE);
    assert_eq!(hardware.flash_regions[3], SECURE);
    assert!(!writes.contains(&RegisterWrite::FlashRegion { index: 31, permissions: NONSECURE }));
    assert!(!writes.contains(&RegisterWrite::FlashRegion { index: 16, permissions: SECURE }));
}

#[test]
fn the_nrf5340_has_smaller_flash_regions() {
    let mut hardware = reset();
    hardware.flash_regions = vec![SECURE; 64];
    let mut layout = layout();
    layout.secure_flash = MemoryRegion::new(0, 0x3000);
    layout.callable_flash = MemoryRegion::new(0x3000, 0x4000);
    layout.nonsecure_flash = MemoryRegion::new(0x4000, 0x10_0000);
    let writes = initialize(&Chip::nrf5340(), &layout, &[], &[], &[], &mut hardware).unwrap();
    assert_eq!(writes[0], RegisterWrite::FlashRegion { index: 1, permissions: NONSECURE });
    assert_eq!(hardware.flash_regions[0], SECURE);
    for index in 1..64 {
        assert_eq!(hardware.flash_regions[index], NONSECURE);
    }
    assert_eq!(hardware.flash_callable_size, 8);
    assert_eq!(hardware.flash_callable_region, 0);
}

#[test]
fn the_callable_size_register_is_the_smallest_that_holds_the_range() {
    for (start, size_register) in [
        (0x3F000u32, 8u32),
        (0x3F800, 7),
        (0x3FC00, 6),
        (0x3FFE0, 1),
        (0x3FFC0, 2),
        (0x3F400, 8),
        (0x3F7FF, 8),
        (0x3F801, 7),
        (0x3FFD0, 2),
        (0x3FFDF, 2),
    ] {
        let mut hardware = reset();
        let mut layout = layout();
        layout.secure_flash = MemoryRegion::new(0, 0x3F000);
        layout.callable_flash = MemoryRegion::new(start, 0x40000);
        initialize(&Chip::nrf9160(), &layout, &[], &[], &[], &mut hardware).unwrap();
        assert_eq!(hardware.flash_callable_size, size_register);
        assert_eq!(hardware.flash_callable_region, 7);
    }
}

#[test]
fn a_range_of_three_kibibytes_is_held_by_four() {
    let chip = Chip::nrf9160();
    let mut hardware = reset();
    let mut layout = layout();
    layout.secure_flash = MemoryRegion::new(0, 0x7000);
    layout.callable_flash = MemoryRegion::new(0x7400, 0x8000);
    layout.nonsecure_flash = MemoryRegion::new(0x8000, 0x10_0000);
    let writes = initialize(&chip, &layout, &[], &[], &[], &mut hardware).unwrap();
    assert_eq!(hardware.flash_callable_size, 8);
    assert_eq!(hardware.flash_callable_region, 0);
    assert!(writes.contains(&RegisterWrite::FlashCallableSize { value: 8 }));
    assert!(writes.contains(&RegisterWrite::FlashCallableRegion { value: 0 }));
}

#[test]
fn a_callable_range_that_would_take_secure_flash_is_refused() {
    let mut layout = layout();
    layout.secure_flash = MemoryRegion::new(0, 0x3F400);
    layout.callable_flash = MemoryRegion::new(0x3F400, 0x40000);
    assert_eq!(refused(&layout), ConfigError::CallableRegionSpills);
    layout.secure_flash = MemoryRegion::new(0, 0x3F001);
    assert_eq!(refused(&layout), ConfigError::CallableRegionSpills);
    layout.secure_flash = MemoryRegion::new(0, 0x3F000);
    assert!(validate(&Chip::nrf9160(), &layout, &[], &[], &[], &reset()).is_ok());
}

#[test]
fn a_callable_range_that_ends_before_its_flash_region_is_refused() {
    let chip = Chip { flash_region_size: 0x800, ..Chip::nrf9160() };
    let mut hardware = reset();
    hardware.flash_regions = vec![SECURE; 64];
    let layout = MemoryLayout {
        secure_flash: MemoryRegion::new(0, 0xC00),
        callable_flash: MemoryRegion::new(0xC00, 0x1800),
        nonsecure_flash: MemoryRegion::new(0x1800, 0x2000),
        secure_ram: MemoryRegion::new(0x2000_0000, 0x2001_0000),
        nonsecure_ram: MemoryRegion::new(0x2001_0000, 0x2004_0000),
    };
    assert_eq!(
        validate(&chip, &layout, &[], &[], &[], &hardware),
        Err(ConfigError::CallableRegionSpills)
    );
}

#[test]
fn a_callable_range_in_a_region_that_is_not_secure_is_refused() {
    let mut layout = layout();
    layout.secure_flash = MemoryRegion::new(0, 0x30000);
    assert_eq!(refused(&layout), ConfigError::CallableRegionNotSecure);
    layout.secure_flash = MemoryRegion::new(0, 0x38001);
    assert!(validate(&Chip::nrf9160(), &layout, &[], &[], &[], &reset()).is_ok());
}

#[test]
fn a_callable_range_beyond_the_region_register_is_refused() {
    let mut layout = layout();
    layout.secure_flash = MemoryRegion::new(0, 0x20_7000);
    layout.callable_flash = MemoryRegion::new(0x20_7000, 0x20_8000);
    layout.nonsecure_flash = MemoryRegion::new(0x20_8000, 0x30_0000);
    assert_eq!(refused(&layout), ConfigError::CallableRegionOutOfReach);
    layout.secure_flash = MemoryRegion::new(0, 0x1F_F000);
    layout.callable_flash = MemoryRegion::new(0x1F_F000, 0x20_0000);
    layout.nonsecure_flash = MemoryRegion::new(0x20_0000, 0x30_0000);
    let mut hardware = reset();
    initialize(&Chip::nrf9160(), &layout, &[], &[], &[], &mut hardware).unwrap();
    assert_eq!(hardware.flash_callable_region, 63);
}

#[test]
fn a_callable_range_above_the_maximum_is_refused_before_any_write() {
    let mut layout = layout();
    layout.secure_flash = MemoryRegion::new(0, 0x3E000);
    layout.callable_flash = MemoryRegion::new(0x3E000, 0x40000);
    assert_eq!(refused(&layout), ConfigError::CallableRegionTooLarge);
    let mut hardware = reset();
    let result =
        initialize(&Chip::nrf9160(), &layout, &peripherals(), &pins(), &dppi(), &mut hardware);
    assert_eq!(result, Err(ConfigError::CallableRegionTooLarge));
    assert_eq!(hardware.flash_regions, vec![SECURE; 32]);
    assert_eq!(hardware.ram_regions, vec![SECURE; 32]);
    assert_eq!(hardware.gpio_ports, vec![0xFFFF_FFFF]);
    assert_eq!(hardware.sau_control, 0);
    assert!(!hardware.nonsecure_data_initialized);
    layout.callable_flash = MemoryRegion::new(0x3F000, 0x40000);
    layout.secure_flash = MemoryRegion::new(0, 0x3F000);
    assert!(validate(&Chip::nrf9160(), &layout, &[], &[], &[], &reset()).is_ok());
    layout.secure_flash = MemoryRegion::new(0, 0x3EFFF);
    layout.callable_flash = MemoryRegion::new(0x3EFFF, 0x40000);
    assert_eq!(refused(&layout), ConfigError::CallableRegionTooLarge);
}

#[test]
fn a_callable_range_that_starts_on_a_region_boundary_is_too_large() {
    let mut layout = layout();
    layout.secure_flash = MemoryRegion::new(0, 0x38000);
    layout.callable_flash = MemoryRegion::new(0x38000, 0x38000);
    assert_eq!(refused(&layout), ConfigError::CallableRegionTooLarge);
}

#[test]
fn a_callable_range_below_thirty_two_bytes_is_refused() {
    let mut layout = layout();
    layout.callable_flash = MemoryRegion::new(0x3FFF8, 0x40000);
    assert_eq!(refused(&layout), ConfigError::CallableRegionTooSmall);
    layout.callable_flash = MemoryRegion::new(0x3FFF0, 0x40000);
    assert_eq!(refused(&layout), ConfigError::CallableRegionTooSmall);
    layout.callable_flash = MemoryRegion::new(0x3FFE1, 0x40000);
    assert_eq!(refused(&layout), ConfigError::CallableRegionTooSmall);
    layout.callable_flash = MemoryRegion::new(0x3FFE0, 0x40000);
    assert!(validate(&Chip::nrf9160(), &layout, &[], &[], &[], &reset()).is_ok());
}

#[test]
fn each_boundary_off_a_region_boundary_is_refused() {
    let cases: Vec<(Boundary, fn(&mut MemoryLayout))> = vec![
        (Boundary::SecureFlashStart, |l| l.secure_flash.start = 0x100),
        (Boundary::CallableFlashEnd, |l| l.callable_flash.end = 0x3FF00),
        (Boundary::NonSecureFlashStart, |l| l.nonsecure_flash.start = 0x40100),
        (Boundary::NonSecureFlashEnd, |l| l.nonsecure_flash.end = 0xF_FF00),
        (Boundary::SecureRamStart, |l| l.secure_ram.start = 0x2000_0100),
        (Boundary::SecureRamEnd, |l| l.secure_ram.end = 0x2000_F100),
        (Boundary::NonSecureRamStart, |l| l.nonsecure_ram.start = 0x2001_0100),
        (Boundary::NonSecureRamEnd, |l| l.nonsecure_ram.end = 0x2003_FF00),
    ];
    for (boundary, change) in cases {
        let mut layout = layout();
        change(&mut layout);
        assert_eq!(refused(&layout), ConfigError::Misaligned { boundary });
    }
}

#[test]
fn the_first_misaligned_boundary_is_named() {
    let mut layout = layout();
    layout.nonsecure_ram.end = 0x2003_FF00;
    layout.nonsecure_flash.start = 0x40100;
    assert_eq!(refused(&layout), ConfigError::Misaligned { boundary: Boundary::NonSecureFlashStart });
}

#[test]
fn overlapping_ranges_are_refused() {
    let mut layout = layout();
    layout.nonsecure_flash = MemoryRegion::new(0x38000, 0x10_0000);
    assert_eq!(refused(&layout), ConfigError::Overlap);
}

#[test]
fn unknown_peripherals_pins_and_channels_are_refused() {
    let chip = Chip::nrf9160();
    let layout = layout();
    let hardware = reset();
    let unknown = vec![NonSecurePeripheral::new(8), NonSecurePeripheral::new(67)];
    assert_eq!(
        validate(&chip, &layout, &unknown, &pins(), &dppi(), &hardware),
        Err(ConfigError::UnknownPeripheral { id: 67 })
    );
    assert_eq!(
        validate(&chip, &layout, &peripherals(), &[(0, 3), (1, 0)], &dppi(), &hardware),
        Err(ConfigError::UnknownPin { port: 1, pin: 0 })
    );
    assert_eq!(
        validate(&chip, &layout, &peripherals(), &[(0, 32), (0, 33)], &dppi(), &hardware),
        Err(ConfigError::UnknownPin { port: 0, pin: 32 })
    );
    assert_eq!(
        validate(&chip, &layout, &peripherals(), &pins(), &[(0, 15), (0, 40)], &hardware),
        Err(ConfigError::UnknownChannel { port: 0, channel: 40 })
    );
    assert_eq!(
        validate(&chip, &layout, &unknown, &[(9, 9)], &[(9, 9)], &hardware),
        Err(ConfigError::UnknownPeripheral { id: 67 })
    );
    assert_eq!(validate(&chip, &layout, &peripherals(), &pins(), &dppi(), &hardware), Ok(()));
}

#[test]
fn a_pin_listed_twice_is_cleared_once() {
    let mut hardware = reset();
    let writes =
        initialize(&Chip::nrf9160(), &layout(), &[], &[(0, 4), (0, 4)], &[], &mut hardware)
            .unwrap();
    assert_eq!(hardware.gpio_ports, vec![0xFFFF_FFEF]);
    assert_eq!(
        writes.iter().filter(|write| **write == RegisterWrite::Pin { port: 0, pin: 4 }).count(),
        2
    );
}

#[test]
fn the_listed_writes_replayed_on_fresh_registers_partition_them() {
    let mut hardware = reset();
    let writes =
        initialize(&Chip::nrf9160(), &layout(), &peripherals(), &pins(), &dppi(), &mut hardware)
            .unwrap();
    let mut double = reset();
    double.replay(&writes);
    assert_eq!(double.flash_regions, hardware.flash_regions);
    assert_eq!(double.ram_regions, hardware.ram_regions);
    assert_eq!(double.flash_callable_size, hardware.flash_callable_size);
    assert_eq!(double.flash_callable_region, hardware.flash_callable_region);
    assert_eq!(double.peripherals, hardware.peripherals);
    assert_eq!(double.gpio_ports, hardware.gpio_ports);
    assert_eq!(double.dppi, hardware.dppi);
    assert_eq!(double.sau_control, hardware.sau_control);
    assert_eq!(double.nonsecure_stack_pointer, hardware.nonsecure_stack_pointer);
    assert_eq!(double.nonsecure_data_initialized, hardware.nonsecure_data_initialized);
}

#[test]
fn a_write_to_what_the_unit_lacks_changes_nothing() {
    let mut hardware = reset();
    hardware.apply(RegisterWrite::FlashRegion { index: 32, permissions: NONSECURE });
    hardware.apply(RegisterWrite::RamRegion { index: 99, permissions: NONSECURE });
    hardware.apply(RegisterWrite::Peripheral { id: 67 });
    hardware.apply(RegisterWrite::Pin { port: 1, pin: 0 });
    hardware.apply(RegisterWrite::Pin { port: 0, pin: 32 });
    hardware.apply(RegisterWrite::DppiChannel { port: 0, channel: 32 });
    hardware.apply(RegisterWrite::InstructionBarrier);
    hardware.apply(RegisterWrite::DataBarrier);
    assert_eq!(hardware.flash_regions, vec![SECURE; 32]);
    assert_eq!(hardware.ram_regions, vec![SECURE; 32]);
    assert_eq!(hardware.gpio_ports, vec![0xFFFF_FFFF]);
    assert_eq!(hardware.dppi, vec![0xFFFF_FFFF]);
    assert!(hardware.peripherals.iter().all(|peripheral| peripheral.secure));
    hardware.apply(RegisterWrite::Pin { port: 0, pin: 31 });
    hardware.apply(RegisterWrite::DppiChannel { port: 0, channel: 0 });
    hardware.apply(RegisterWrite::FlashRegion { index: 31, permissions: NONSECURE });
    assert_eq!(hardware.gpio_ports, vec![0x7FFF_FFFF]);
    assert_eq!(hardware.dppi, vec![0xFFFF_FFFE]);
    assert_eq!(hardware.flash_regions[31], NONSECURE);
}
