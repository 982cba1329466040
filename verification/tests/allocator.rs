use riscv_hypervisor::allocator::{PageAllocator, PAGE_SIZE};

#[test]
fn pages_come_one_after_the_other() {
    let mut alloc = PageAllocator::new(0x9000_0000, 0x9000_4000);
    assert_eq!(alloc.next_addr(), 0x9000_0000);
    assert_eq!(alloc.free_bytes(), 0x4000);
    assert_eq!(alloc.alloc_pages(4096), Some(0x9000_0000));
    assert_eq!(alloc.alloc_pages(1), Some(0x9000_1000));
    assert_eq!(alloc.alloc_pages(4097), Some(0x9000_2000));
    assert_eq!(alloc.free_bytes(), 0);
    assert_eq!(alloc.alloc_pages(1), None);
    assert_eq!(alloc.next_addr(), 0x9000_4000);
    assert_eq!(alloc.end_addr(), 0x9000_4000);
}

#[test]
fn bounds_are_cut_to_whole_pages() {
    let alloc = PageAllocator::new(0x1001, 0x4fff);
    assert_eq!(alloc.next_addr(), 0x2000);
    assert_eq!(alloc.end_addr(), 0x4000);
    assert_eq!(alloc.free_bytes(), 2 * PAGE_SIZE);
}

#[test]
fn an_empty_range_gives_nothing() {
    let mut alloc = PageAllocator::new(0x5000, 0x2000);
    assert_eq!(alloc.free_bytes(), 0);
    assert_eq!(alloc.alloc_pages(4096), None);
    let mut alloc = PageAllocator::new(0x1001, 0x1fff);
    assert_eq!(alloc.free_bytes(), 0);
    assert_eq!(alloc.alloc_pages(1), None);
}

#[test]
fn a_request_that_does_not_fit_leaves_the_allocator_as_it_was() {
    let mut alloc = PageAllocator::new(0x1000, 0x3000);
    assert_eq!(alloc.alloc_pages(0x2001), None);
    assert_eq!(alloc.next_addr(), 0x1000);
    assert_eq!(alloc.alloc_pages(0x2000), Some(0x1000));
}

#[test]
fn zero_bytes_take_no_page() {
    let mut alloc = PageAllocator::new(0x1000, 0x3000);
    assert_eq!(alloc.alloc_pages(0), Some(0x1000));
    assert_eq!(alloc.next_addr(), 0x1000);
}

#[test]
fn the_top_of_the_address_space_does_not_wrap() {
    let mut alloc = PageAllocator::new(0xffff_ffff_ffff_e000, 0xffff_ffff_ffff_ffff);
    assert_eq!(alloc.end_addr(), 0xffff_ffff_ffff_f000);
    assert_eq!(alloc.alloc_pages(usize::MAX), None);
    assert_eq!(alloc.alloc_pages(4096), Some(0xffff_ffff_ffff_e000));
    assert_eq!(alloc.alloc_pages(4096), None);
}
