use riscv_hypervisor::allocator::PageAllocator;
use riscv_hypervisor::guest_page_table::{
    GuestPageTable, MapError, Translation, PTE_A, PTE_R, PTE_U, PTE_V, PTE_W, PTE_X,
};

const POOL: u64 = 0x9000_0000;

fn table_with(pages: u64) -> GuestPageTable {
    GuestPageTable::new(PageAllocator::new(POOL, POOL + pages * 4096)).unwrap()
}

#[test]
fn an_empty_table_translates_nothing() {
    let table = table_with(4);
    assert_eq!(table.translate(0), None);
    assert_eq!(table.translate(0x8000_0000), None);
    assert_eq!(table.translate(u64::MAX), None);
    assert_eq!(table.page_count(), 1);
    assert_eq!(table.root_addr(), POOL);
    assert!(table.page_entries(0).iter().all(|e| *e == 0));
}

#[test]
fn hgatp_selects_sv48x4_and_the_root() {
    let table = table_with(1);
    assert_eq!(table.hgatp(), (9u64 << 60) | (POOL >> 12));
    let table = GuestPageTable::new(PageAllocator::new(0x1_2345_6000, 0x1_2345_8000)).unwrap();
    assert_eq!(table.hgatp(), 0x9000_0000_0012_3456);
}

#[test]
fn a_table_needs_a_page_for_its_root() {
    assert!(matches!(
        GuestPageTable::new(PageAllocator::new(POOL, POOL)),
        Err(MapError::OutOfMemory)
    ));
    assert!(matches!(
        GuestPageTable::new(PageAllocator::new(0xff_ffff_ffff_f000, 0x100_0000_0000_1000)),
        Err(MapError::HostAddrOutOfRange)
    ));
    assert!(GuestPageTable::new(PageAllocator::new(0xff_ffff_ffff_f000, 0x100_0000_0000_0000)).is_ok());
}

#[test]
fn a_mapped_page_translates_to_its_host_page() {
    let mut table = table_with(4);
    let flags = PTE_R | PTE_W | PTE_X;
    assert_eq!(table.map(0x8000_0000, 0x1_2340_0000, flags), Ok(()));
    assert_eq!(
        table.translate(0x8000_0000),
        Some(Translation { host_addr: 0x1_2340_0000, flags })
    );
    // every address of the page leads into the host page, at its own offset
    assert_eq!(
        table.translate(0x8000_0001),
        Some(Translation { host_addr: 0x1_2340_0001, flags })
    );
    assert_eq!(
        table.translate(0x8000_0abc),
        Some(Translation { host_addr: 0x1_2340_0abc, flags })
    );
    assert_eq!(
        table.translate(0x8000_0fff),
        Some(Translation { host_addr: 0x1_2340_0fff, flags })
    );
    // the pages around it are not mapped
    assert_eq!(table.translate(0x8000_1000), None);
    assert_eq!(table.translate(0x7fff_ffff), None);
}

#[test]
fn the_walk_goes_through_four_levels_of_raw_entries() {
    let mut table = table_with(4);
    let guest: u64 = (3 << 39) | (5 << 30) | (7 << 21) | (9 << 12);
    assert_eq!(table.map(guest, 0xabc_d000, PTE_R), Ok(()));
    assert_eq!(table.page_count(), 4);
    let ptr = |page: u64| ((POOL + page * 4096) >> 12) << 10 | PTE_V;
    assert_eq!(table.page_entries(0)[3], ptr(1));
    assert_eq!(table.page_entries(1)[5], ptr(2));
    assert_eq!(table.page_entries(2)[7], ptr(3));
    assert_eq!(table.page_entries(3)[9], (0xabc_d000u64 >> 12) << 10 | PTE_R | PTE_V);
    let set: usize = (0..4).map(|p| table.page_entries(p).iter().filter(|e| **e != 0).count()).sum();
    assert_eq!(set, 4);
}

#[test]
fn pages_that_share_tables_take_no_new_page() {
    let mut table = table_with(5);
    assert_eq!(table.map(0x8000_0000, 0x1000, PTE_R), Ok(()));
    assert_eq!(table.page_count(), 4);
    assert_eq!(table.map(0x8000_1000, 0x2000, PTE_R), Ok(()));
    assert_eq!(table.map(0x801f_f000, 0x3000, PTE_R), Ok(()));
    assert_eq!(table.page_count(), 4);
    // the next 2 MiB need one more table
    assert_eq!(table.map(0x8020_0000, 0x4000, PTE_R), Ok(()));
    assert_eq!(table.page_count(), 5);
    assert_eq!(table.translate(0x8000_0000).unwrap().host_addr, 0x1000);
    assert_eq!(table.translate(0x8000_1000).unwrap().host_addr, 0x2000);
    assert_eq!(table.translate(0x801f_f000).unwrap().host_addr, 0x3000);
    assert_eq!(table.translate(0x8020_0000).unwrap().host_addr, 0x4000);
}

#[test]
fn mapping_a_page_twice_is_refused() {
    let mut table = table_with(4);
    assert_eq!(table.map(0x8000_0000, 0x1000, PTE_R), Ok(()));
    assert_eq!(table.map(0x8000_0000, 0x2000, PTE_R | PTE_W), Err(MapError::AlreadyMapped));
    assert_eq!(
        table.translate(0x8000_0000),
        Some(Translation { host_addr: 0x1000, flags: PTE_R })
    );
}

#[test]
fn addresses_off_a_page_boundary_are_refused() {
    let mut table = table_with(4);
    assert_eq!(table.map(0x8000_0001, 0x1000, PTE_R), Err(MapError::Misaligned));
    assert_eq!(table.map(0x8000_0000, 0x1800, PTE_R), Err(MapError::Misaligned));
    assert_eq!(table.map(0x8000_0fff, 0x1fff, PTE_R), Err(MapError::Misaligned));
    assert_eq!(table.page_count(), 1);
    assert_eq!(table.translate(0x8000_0000), None);
}

#[test]
fn addresses_out_of_range_are_refused() {
    let mut table = table_with(8);
    assert_eq!(table.map(1 << 48, 0x1000, PTE_R), Err(MapError::GuestAddrOutOfRange));
    assert_eq!(table.map(0x8000_0000, 1 << 56, PTE_R), Err(MapError::HostAddrOutOfRange));
    assert_eq!(table.map((1 << 48) - 4096, (1 << 56) - 4096, PTE_R), Ok(()));
    assert_eq!(
        table.translate((1 << 48) - 1),
        Some(Translation { host_addr: (1 << 56) - 1, flags: PTE_R })
    );
    assert_eq!(table.translate(1 << 48), None);
}

#[test]
fn flags_must_be_permissions_with_r_w_or_x() {
    let mut table = table_with(4);
    assert_eq!(table.map(0x8000_0000, 0x1000, 0), Err(MapError::InvalidFlags));
    assert_eq!(table.map(0x8000_0000, 0x1000, PTE_U | PTE_A), Err(MapError::InvalidFlags));
    assert_eq!(table.map(0x8000_0000, 0x1000, PTE_R | PTE_V), Err(MapError::InvalidFlags));
    assert_eq!(table.map(0x8000_0000, 0x1000, PTE_R | 0x100), Err(MapError::InvalidFlags));
    assert_eq!(table.map(0x8000_0000, 0x1000, PTE_X | PTE_U | PTE_A), Ok(()));
    assert_eq!(
        table.translate(0x8000_0000),
        Some(Translation { host_addr: 0x1000, flags: PTE_X | PTE_U | PTE_A })
    );
}

#[test]
fn a_mapping_that_needs_more_pages_than_the_pool_has_changes_nothing() {
    // root and two more pages: one short of what a first mapping needs
    let mut table = table_with(3);
    assert_eq!(table.map(0x8000_0000, 0x1000, PTE_R), Err(MapError::OutOfMemory));
    assert_eq!(table.page_count(), 1);
    assert!(table.page_entries(0).iter().all(|e| *e == 0));
    let mut table = table_with(4);
    assert_eq!(table.map(0x8000_0000, 0x1000, PTE_R), Ok(()));
    // same 2 MiB: fits; another 1 GiB needs two pages and gets none
    assert_eq!(table.map(0x8000_1000, 0x1000, PTE_R), Ok(()));
    assert_eq!(table.map(0xc000_0000, 0x1000, PTE_R), Err(MapError::OutOfMemory));
    assert_eq!(table.page_count(), 4);
    assert_eq!(table.translate(0xc000_0000), None);
}

#[test]
fn the_error_that_comes_first_is_reported() {
    let mut table = table_with(1);
    // misaligned, out of range and bad flags at once
    assert_eq!(table.map((1 << 48) + 1, 1 << 56, 0), Err(MapError::Misaligned));
    assert_eq!(table.map(1 << 48, 1 << 56, 0), Err(MapError::GuestAddrOutOfRange));
    assert_eq!(table.map(0, 1 << 56, 0), Err(MapError::HostAddrOutOfRange));
    assert_eq!(table.map(0, 0, 0), Err(MapError::InvalidFlags));
    assert_eq!(table.map(0, 0, PTE_R), Err(MapError::OutOfMemory));
}

#[test]
fn guest_page_zero_can_be_mapped_to_host_page_zero() {
    let mut table = table_with(4);
    assert_eq!(table.map(0, 0, PTE_R | PTE_W), Ok(()));
    assert_eq!(table.translate(0x10), Some(Translation { host_addr: 0x10, flags: PTE_R | PTE_W }));
}
