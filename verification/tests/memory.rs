use trustzone_m::memory::{Domain, MemoryLayout, MemoryRegion};

fn layout() -> MemoryLayout {
    MemoryLayout {
        secure_flash: MemoryRegion::new(0, 0x3F000),
        callable_flash: MemoryRegion::new(0x3F000, 0x40000),
        nonsecure_flash: MemoryRegion::new(0x40000, 0x10_0000),
        secure_ram: MemoryRegion::new(0x2000_0000, 0x2001_0000),
        nonsecure_ram: MemoryRegion::new(0x2001_0000, 0x2004_0000),
    }
}

#[test]
fn a_region_holds_its_start_and_not_its_end() {
    let region = MemoryRegion::new(0x100, 0x200);
    assert!(region.contains(0x100));
    assert!(region.contains(0x1FF));
    assert!(!region.contains(0x200));
    assert!(!region.contains(0xFF));
    assert!(!region.contains(0x1_0000_0100));
    assert_eq!(region.len(), 0x100);
}

#[test]
fn a_region_that_ends_before_it_starts_is_empty() {
    let region = MemoryRegion::new(0x200, 0x100);
    assert!(!region.contains(0x150));
    assert!(!region.contains(0x200));
    assert_eq!(region.len(), 0);
    assert_eq!(MemoryRegion::new(5, 5).len(), 0);
}

#[test]
fn regions_that_touch_do_not_intersect() {
    let low = MemoryRegion::new(0, 0x100);
    let high = MemoryRegion::new(0x100, 0x200);
    assert!(!low.intersects(&high));
    assert!(!high.intersects(&low));
    assert!(low.intersects(&MemoryRegion::new(0xFF, 0x101)));
    assert!(MemoryRegion::new(0, 0x1000).intersects(&MemoryRegion::new(0x10, 0x20)));
    assert!(!low.intersects(&MemoryRegion::new(0x50, 0x50)));
}

#[test]
fn the_layout_names_the_world_of_each_address() {
    let layout = layout();
    assert_eq!(layout.domain(0), Some(Domain::Secure));
    assert_eq!(layout.domain(0x3EFFF), Some(Domain::Secure));
    assert_eq!(layout.domain(0x3F000), Some(Domain::NonSecureCallable));
    assert_eq!(layout.domain(0x3FFFF), Some(Domain::NonSecureCallable));
    assert_eq!(layout.domain(0x40000), Some(Domain::NonSecure));
    assert_eq!(layout.domain(0x10_0000), None);
    assert_eq!(layout.domain(0x2000_0000), Some(Domain::Secure));
    assert_eq!(layout.domain(0x2000_F000), Some(Domain::Secure));
    assert_eq!(layout.domain(0x2003_FFFF), Some(Domain::NonSecure));
    assert_eq!(layout.domain(0x2004_0000), None);
}

#[test]
fn overlap_of_any_two_ranges_is_found() {
    assert!(!layout().overlapping());
    let mut first = layout();
    first.callable_flash = MemoryRegion::new(0x3E000, 0x40000);
    assert!(first.overlapping());
    let mut last = layout();
    last.nonsecure_ram = MemoryRegion::new(0x2000_FFFF, 0x2004_0000);
    assert!(last.overlapping());
    let mut across = layout();
    across.nonsecure_flash = MemoryRegion::new(0x40000, 0x2000_0001);
    assert!(across.overlapping());
    let mut empty = layout();
    empty.callable_flash = MemoryRegion::new(0x100, 0x100);
    assert!(!empty.overlapping());
}
