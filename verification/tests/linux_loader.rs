use riscv_hypervisor::allocator::PageAllocator;
use riscv_hypervisor::device_tree::build_device_tree;
use riscv_hypervisor::fault::LoadError;
use riscv_hypervisor::guest_memory::GuestMemory;
use riscv_hypervisor::guest_page_table::{GuestPageTable, MapError, Translation, PTE_R, PTE_W, PTE_X};
use riscv_hypervisor::linux_loader::{
    boot_vcpu, check_image, load_device_tree, load_kernel, load_linux_kernel, DTB_SIZE,
    GUEST_BASE_ADDR, GUEST_DTB_ADDR, MEMORY_SIZE, PLIC_ADDR, PLIC_END, RISCV_IMAGE_MAGIC2,
    VIRTIO_BLK_ADDR, VIRTIO_BLK_END,
};

const RAM_HOST: u64 = 0x2_0000_0000;
const DTB_HOST: u64 = 0x3_0000_0000;
const POOL: u64 = 0x4_0000_0000;

fn image(len: usize, magic2: u32) -> Vec<u8> {
    let mut image: Vec<u8> = (0..len).map(|i| (i % 199) as u8 + 1).collect();
    if len >= 60 {
        image[56..60].copy_from_slice(&magic2.to_le_bytes());
    }
    image
}

/// The shortest image that is accepted: a header and nothing more.
fn image_header_only() -> Vec<u8> {
    image(64, 0x0543_5352)
}

fn table(pages: u64) -> GuestPageTable {
    GuestPageTable::new(PageAllocator::new(POOL, POOL + pages * 4096)).unwrap()
}

fn ram() -> GuestMemory<MEMORY_SIZE> {
    GuestMemory::<MEMORY_SIZE>::new(GUEST_BASE_ADDR, RAM_HOST, vec![0u8; MEMORY_SIZE])
}

fn dtb() -> GuestMemory<DTB_SIZE> {
    GuestMemory::<DTB_SIZE>::new(GUEST_DTB_ADDR, DTB_HOST, vec![0u8; DTB_SIZE])
}

/// The byte that guest address `gpa` leads to, found through the table.
fn byte_through_table<const N: usize>(table: &GuestPageTable, mem: &GuestMemory<N>, gpa: u64) -> u8 {
    let host = table.translate(gpa).unwrap().host_addr;
    mem.read::<u8>(mem.guest_base() + (host - mem.host_base()))
}

#[test]
fn the_layout_of_the_guest() {
    assert_eq!(GUEST_BASE_ADDR, 0x8000_0000);
    assert_eq!(GUEST_DTB_ADDR, 0x7000_0000);
    assert_eq!(MEMORY_SIZE, 64 * 1024 * 1024);
    assert_eq!(DTB_SIZE, 64 * 1024);
    assert_eq!((PLIC_ADDR, PLIC_END), (0x0c00_0000, 0x0c40_0000));
    assert_eq!((VIRTIO_BLK_ADDR, VIRTIO_BLK_END), (0x1000_0000, 0x1000_1000));
}

#[test]
fn an_image_with_the_magic_number_is_accepted() {
    let header = check_image(&image(1024, 0x0543_5352)).unwrap();
    assert_eq!(header.magic2, RISCV_IMAGE_MAGIC2);
    let mut bytes = vec![0u8; 64];
    bytes[0..4].copy_from_slice(&0x1111_2222u32.to_le_bytes());
    bytes[4..8].copy_from_slice(&0x3333_4444u32.to_le_bytes());
    bytes[8..16].copy_from_slice(&0x20_0000u64.to_le_bytes());
    bytes[16..24].copy_from_slice(&0x1234_5678u64.to_le_bytes());
    bytes[24..32].copy_from_slice(&1u64.to_le_bytes());
    bytes[32..36].copy_from_slice(&2u32.to_le_bytes());
    bytes[48..56].copy_from_slice(&0x5643_5349_52u64.to_le_bytes());
    bytes[56..60].copy_from_slice(b"RSC\x05");
    bytes[60..64].copy_from_slice(&7u32.to_le_bytes());
    let header = check_image(&bytes).unwrap();
    assert_eq!(header.code0, 0x1111_2222);
    assert_eq!(header.code1, 0x3333_4444);
    assert_eq!(header.text_offset, 0x20_0000);
    assert_eq!(header.image_size, 0x1234_5678);
    assert_eq!(header.flags, 1);
    assert_eq!(header.version, 2);
    assert_eq!(header.reserved1, 0);
    assert_eq!(header.reserved2, 0);
    assert_eq!(header.magic, 0x5643_5349_52);
    assert_eq!(header.magic2, 0x0543_5352);
    assert_eq!(header.reserved3, 7);
}

#[test]
fn an_image_with_another_magic_number_is_refused() {
    for magic2 in [0u32, 0x0543_5353, 0x5253_4305, 0xffff_ffff] {
        assert_eq!(check_image(&image(1024, magic2)), Err(LoadError::BadMagic));
    }
    // the magic number is read low byte first, at byte 56
    let mut bytes = image(1024, 0);
    bytes[56..60].copy_from_slice(&[0x05, 0x43, 0x53, 0x52]);
    assert_eq!(check_image(&bytes), Err(LoadError::BadMagic));
    bytes[56..60].copy_from_slice(&[0x52, 0x53, 0x43, 0x05]);
    assert!(check_image(&bytes).is_ok());
}

#[test]
fn an_image_shorter_than_its_header_is_refused() {
    assert_eq!(check_image(&[]), Err(LoadError::TruncatedImage));
    assert_eq!(check_image(&image(63, 0x0543_5352)), Err(LoadError::TruncatedImage));
    assert!(check_image(&image(64, 0x0543_5352)).is_ok());
}

#[test]
fn a_small_kernel_is_loaded_and_all_of_ram_is_mapped() {
    let mut table = table(64);
    let mut ram = ram();
    let image = image(1024, 0x0543_5352);
    let header = load_kernel(&mut table, &mut ram, &image).unwrap();
    assert_eq!(header.magic2, 0x0543_5352);
    assert_eq!(byte_through_table(&table, &ram, 0x8000_0000), image[0]);
    assert_eq!(byte_through_table(&table, &ram, 0x8000_03ff), image[1023]);
    assert_eq!(byte_through_table(&table, &ram, 0x8000_0400), 0);
    assert_eq!(byte_through_table(&table, &ram, 0x8000_1000), 0);
    assert_eq!(
        table.translate(0x8000_1000),
        Some(Translation { host_addr: RAM_HOST + 0x1000, flags: PTE_R | PTE_W | PTE_X })
    );
    assert_eq!(
        table.translate(0x83ff_ffff),
        Some(Translation { host_addr: RAM_HOST + 0x3ff_ffff, flags: PTE_R | PTE_W | PTE_X })
    );
    assert_eq!(table.translate(0x8400_0000), None);
    assert_eq!(table.translate(0x7fff_ffff), None);
    // device registers stay unmapped, so that accesses to them fault
    assert_eq!(table.translate(PLIC_ADDR), None);
    assert_eq!(table.translate(VIRTIO_BLK_ADDR), None);
    // root, one table at each of levels 2 and 1, 32 tables at level 0
    assert_eq!(table.page_count(), 35);
}

#[test]
fn a_kernel_that_fills_ram_is_loaded() {
    let mut table = table(64);
    let mut ram = ram();
    let image = image(MEMORY_SIZE, 0x0543_5352);
    assert!(load_kernel(&mut table, &mut ram, &image).is_ok());
    assert_eq!(byte_through_table(&table, &ram, 0x83ff_ffff), image[MEMORY_SIZE - 1]);
}

#[test]
fn a_kernel_larger_than_ram_is_refused() {
    let mut table = table(64);
    let mut ram = ram();
    let image = image(MEMORY_SIZE + 1, 0x0543_5352);
    assert_eq!(load_kernel(&mut table, &mut ram, &image), Err(LoadError::TooLarge));
    assert_eq!(table.page_count(), 1);
    assert_eq!(ram.read::<u8>(GUEST_BASE_ADDR), 0);
}

#[test]
fn a_pool_that_runs_out_stops_the_mapping() {
    // root, levels 2 and 1, and one table at level 0: 2 MiB can be mapped
    let mut table = table(4);
    let mut ram = ram();
    let image = image(1024, 0x0543_5352);
    assert_eq!(
        load_kernel(&mut table, &mut ram, &image),
        Err(LoadError::Mapping(MapError::OutOfMemory))
    );
    assert!(table.translate(0x801f_ffff).is_some());
    assert!(table.translate(0x8020_0000).is_none());
    assert_eq!(ram.read::<u8>(GUEST_BASE_ADDR), image[0]);
}

#[test]
fn ram_that_is_mapped_already_is_refused() {
    let mut table = table(64);
    table.map(0x8000_2000, 0x1000, PTE_R).unwrap();
    let mut ram = ram();
    assert_eq!(
        load_kernel(&mut table, &mut ram, &image(1024, 0x0543_5352)),
        Err(LoadError::Mapping(MapError::AlreadyMapped))
    );
    assert!(table.translate(0x8000_1000).is_some());
    assert_eq!(table.translate(0x8000_2000).unwrap().host_addr, 0x1000);
    assert!(table.translate(0x8000_3000).is_none());
}

#[test]
fn the_device_tree_is_mapped_read_only() {
    let mut table = table(64);
    let mut dtb = dtb();
    let blob = vec![0xd0, 0x0d, 0xfe, 0xed, 1, 2, 3];
    assert_eq!(load_device_tree(&mut table, &mut dtb, &blob), Ok(()));
    assert_eq!(byte_through_table(&table, &dtb, 0x7000_0000), 0xd0);
    assert_eq!(byte_through_table(&table, &dtb, 0x7000_0006), 3);
    assert_eq!(byte_through_table(&table, &dtb, 0x7000_0007), 0);
    assert_eq!(
        table.translate(0x7000_ffff),
        Some(Translation { host_addr: DTB_HOST + 0xffff, flags: PTE_R })
    );
    assert_eq!(table.translate(0x7001_0000), None);
    assert_eq!(table.translate(0x6fff_ffff), None);
}

#[test]
fn a_device_tree_larger_than_its_region_is_refused() {
    let mut table = table(64);
    let mut dtb = dtb();
    assert_eq!(load_device_tree(&mut table, &mut dtb, &vec![1u8; DTB_SIZE + 1]), Err(LoadError::TooLarge));
    assert_eq!(table.translate(GUEST_DTB_ADDR), None);
    assert_eq!(load_device_tree(&mut table, &mut dtb, &vec![1u8; DTB_SIZE]), Ok(()));
}

#[test]
fn a_region_that_is_no_whole_number_of_pages_is_mapped_to_its_last_byte() {
    let mut table = table(8);
    let mut mem = GuestMemory::<0x1801>::new(0x7000_0000, DTB_HOST, vec![0u8; 0x1801]);
    assert_eq!(mem.write_and_map(&mut table, &[1, 2, 3], PTE_R), Ok(()));
    assert!(table.translate(0x7000_0000).is_some());
    assert!(table.translate(0x7000_1800).is_some());
    assert!(table.translate(0x7000_1fff).is_some());
    assert!(table.translate(0x7000_2000).is_none());
    let mut empty = GuestMemory::<0>::new(0x6000_0000, DTB_HOST, Vec::new());
    assert_eq!(empty.write_and_map(&mut table, &[], PTE_R), Ok(()));
    assert!(table.translate(0x6000_0000).is_none());
}

#[test]
fn a_region_off_a_page_boundary_cannot_be_mapped() {
    let mut table = table(8);
    let mut mem = GuestMemory::<0x1000>::new(0x7000_0800, DTB_HOST, vec![0u8; 0x1000]);
    assert_eq!(
        mem.write_and_map(&mut table, &[1], PTE_R),
        Err(LoadError::Mapping(MapError::Misaligned))
    );
    assert_eq!(mem.read::<u8>(0x7000_0800), 1);
}

#[test]
fn the_guest_is_loaded_with_kernel_and_device_tree() {
    let mut table = table(64);
    let mut ram = ram();
    let mut dtb = dtb();
    let image = image(4096 + 17, 0x0543_5352);
    let header = load_linux_kernel(&mut table, &mut ram, &mut dtb, &image).unwrap();
    assert_eq!(header.magic2, 0x0543_5352);
    assert_eq!(byte_through_table(&table, &ram, 0x8000_0000), image[0]);
    assert_eq!(byte_through_table(&table, &ram, 0x8000_1010), image[4096 + 16]);
    assert_eq!(byte_through_table(&table, &ram, 0x8000_1011), 0);
    let blob = build_device_tree().unwrap();
    let mut loaded = vec![0u8; blob.len()];
    dtb.read_bytes(GUEST_DTB_ADDR, &mut loaded);
    assert_eq!(loaded, blob);
    assert_eq!(table.translate(GUEST_DTB_ADDR).unwrap().flags, PTE_R);
    assert_eq!(table.translate(GUEST_BASE_ADDR).unwrap().flags, PTE_R | PTE_W | PTE_X);
    // 35 pages for RAM, two more tables for the device tree
    assert_eq!(table.page_count(), 37);
}

#[test]
fn the_host_checks_the_image_before_it_loads() {
    let image = image(100, 0);
    assert_eq!(check_image(&image), Err(LoadError::BadMagic));
    let image = image_header_only();
    assert!(check_image(&image).is_ok());
    let mut table = table(64);
    let mut ram = ram();
    let mut dtb = dtb();
    assert!(load_linux_kernel(&mut table, &mut ram, &mut dtb, &image).is_ok());
    assert_eq!(byte_through_table(&table, &ram, 0x8000_003f), image[63]);
    assert_eq!(byte_through_table(&table, &ram, 0x8000_0040), 0);
}

#[test]
fn the_guest_boots_at_the_start_of_ram_with_the_device_tree_in_a1() {
    let table = table(1);
    let mut alloc = PageAllocator::new(0x5_0000_0000, 0x5_0010_0000);
    let vcpu = boot_vcpu(&table, &mut alloc).unwrap();
    assert_eq!(vcpu.sepc, 0x8000_0000);
    assert_eq!(vcpu.a0, 0);
    assert_eq!(vcpu.a1, 0x7000_0000);
    assert_eq!(vcpu.hgatp, table.hgatp());
    assert_eq!(vcpu.host_sp, 0x5_0008_0000);
    assert_eq!(vcpu.hstatus, 0x2_0000_0080);
    assert_eq!(vcpu.sstatus, 0x100);
    let mut none = PageAllocator::new(0x5_0000_0000, 0x5_0000_1000);
    assert!(boot_vcpu(&table, &mut none).is_none());
}
