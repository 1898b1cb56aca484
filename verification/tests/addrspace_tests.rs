use kernel_core::addrspace::AddressSpace;
use kernel_core::config::PAGE_SIZE;

#[test]
fn mmap_rejects_misaligned_start() {
    let mut space = AddressSpace::new();
    assert_eq!(space.mmap(PAGE_SIZE + 1, PAGE_SIZE, 7), -1);
    assert_eq!(space.mmap(123, PAGE_SIZE, 7), -1);
}

#[test]
fn mmap_rejects_invalid_protection() {
    let mut space = AddressSpace::new();
    assert_eq!(space.mmap(0x10000, PAGE_SIZE, 0), -1);
    assert_eq!(space.mmap(0x10000, PAGE_SIZE, 8), -1);
    assert_eq!(space.mmap(0x10000, PAGE_SIZE, 9), -1);
    assert!(!space.is_page_mapped(0x10));
}

#[test]
fn mmap_of_zero_length_is_a_noop_success() {
    let mut space = AddressSpace::new();
    assert_eq!(space.mmap(0x10000, 0, 7), 0);
    assert!(!space.is_page_mapped(0x10));
}

#[test]
fn mmap_maps_whole_range_and_rejects_overlap() {
    let mut space = AddressSpace::new();
    assert_eq!(space.mmap(0x10000, 2 * PAGE_SIZE + 1, 3), 0);
    assert!(space.is_page_mapped(0x10));
    assert!(space.is_page_mapped(0x11));
    assert!(space.is_page_mapped(0x12));
    assert!(!space.is_page_mapped(0x13));
    // any already-mapped page in range is refused, no silent replace
    assert_eq!(space.mmap(0x12000, PAGE_SIZE, 1), -1);
    assert!(!space.is_page_mapped(0x13));
}

#[test]
fn munmap_rejects_misaligned_and_holes() {
    let mut space = AddressSpace::new();
    assert_eq!(space.mmap(0x10000, PAGE_SIZE, 7), 0);
    assert_eq!(space.munmap(0x10001, PAGE_SIZE), -1);
    // range reaches an unmapped page
    assert_eq!(space.munmap(0x10000, 2 * PAGE_SIZE), -1);
    // entirely unmapped range
    assert_eq!(space.munmap(0x20000, PAGE_SIZE), -1);
    assert!(space.is_page_mapped(0x10));
}

#[test]
fn munmap_releases_range_and_allows_remap() {
    let mut space = AddressSpace::new();
    assert_eq!(space.mmap(0x10000, 3 * PAGE_SIZE, 7), 0);
    assert_eq!(space.munmap(0x10000, 3 * PAGE_SIZE), 0);
    assert!(!space.is_page_mapped(0x10));
    assert!(!space.is_page_mapped(0x12));
    // the released range is mmap-able again
    assert_eq!(space.mmap(0x10000, 3 * PAGE_SIZE, 1), 0);
    assert!(space.is_page_mapped(0x10));
    assert!(space.is_page_mapped(0x12));
}

#[test]
fn check_buf_follows_the_mapping() {
    let mut space = AddressSpace::new();
    assert!(space.check_buf(0x10000, 0));
    assert!(!space.check_buf(0x10000, 1));
    assert_eq!(space.mmap(0x10000, 2 * PAGE_SIZE, 3), 0);
    assert!(space.check_buf(0x10000, 2 * PAGE_SIZE));
    assert!(space.check_buf(0x10123, 100));
    // one byte past the mapped range
    assert!(!space.check_buf(0x10000, 2 * PAGE_SIZE + 1));
    assert!(!space.check_buf(0x11fff, 2));
}
