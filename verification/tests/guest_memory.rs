use riscv_hypervisor::guest_memory::GuestMemory;

const BASE: u64 = 0x8000_0000;
const HOST: u64 = 0x9_0000_0000;
const SIZE: usize = 0x2000;

fn region() -> GuestMemory<SIZE> {
    GuestMemory::<SIZE>::new(BASE, HOST, vec![0u8; SIZE])
}

#[test]
fn a_region_knows_where_it_lies() {
    let mem = region();
    assert_eq!(mem.guest_base(), BASE);
    assert_eq!(mem.host_base(), HOST);
    assert!(mem.contains(BASE));
    assert!(mem.contains(BASE + SIZE as u64 - 1));
    assert!(!mem.contains(BASE + SIZE as u64));
    assert!(!mem.contains(BASE - 1));
}

#[test]
fn reading_a_written_range_returns_the_bytes_written() {
    let mut mem = region();
    mem.write_bytes(BASE + 0x10, &[1, 2, 3, 4, 5]);
    let mut back = [0u8; 5];
    mem.read_bytes(BASE + 0x10, &mut back);
    assert_eq!(back, [1, 2, 3, 4, 5]);
    // the bytes around the range are untouched
    let mut around = [0xffu8; 7];
    mem.read_bytes(BASE + 0x0f, &mut around);
    assert_eq!(around, [0, 1, 2, 3, 4, 5, 0]);
}

#[test]
fn the_whole_region_can_be_written_and_read() {
    let mut mem = region();
    let data: Vec<u8> = (0..SIZE).map(|i| (i % 251) as u8).collect();
    mem.write_bytes(BASE, &data);
    let mut back = vec![0u8; SIZE];
    mem.read_bytes(BASE, &mut back);
    assert_eq!(back, data);
}

#[test]
fn ranges_outside_the_region_are_told_apart() {
    let mut mem = region();
    assert!(!mem.contains_range(BASE - 1, 1));
    assert!(!mem.contains_range(BASE + SIZE as u64, 1));
    assert!(!mem.contains_range(BASE + SIZE as u64 - 1, 2));
    assert!(!mem.contains_range(u64::MAX, 2));
    assert!(!mem.contains_range(0, 1));
    assert!(!mem.contains_range(BASE, SIZE + 1));
    assert!(!mem.contains_range(BASE, usize::MAX));
    assert!(mem.contains_range(BASE, SIZE));
    assert!(mem.contains_range(BASE + SIZE as u64 - 1, 1));
    // the last byte can be written
    mem.write_bytes(BASE + SIZE as u64 - 1, &[9]);
    assert_eq!(mem.read::<u8>(BASE + SIZE as u64 - 1), 9);
}

#[test]
fn an_empty_range_at_the_end_is_inside() {
    let mut mem = region();
    assert!(mem.contains_range(BASE + SIZE as u64, 0));
    assert!(!mem.contains_range(BASE + SIZE as u64 + 1, 0));
    mem.write_bytes(BASE + SIZE as u64, &[]);
    let mut none = [0u8; 0];
    mem.read_bytes(BASE + SIZE as u64, &mut none);
}

#[test]
fn values_are_read_low_byte_first() {
    let mut mem = region();
    mem.write_bytes(BASE + 0x100, &[0x88, 0x77, 0x66, 0x55, 0x44, 0x33, 0x22, 0x11]);
    assert_eq!(mem.read::<u8>(BASE + 0x100), 0x88);
    assert_eq!(mem.read::<u16>(BASE + 0x100), 0x7788);
    assert_eq!(mem.read::<u32>(BASE + 0x100), 0x5566_7788);
    assert_eq!(mem.read::<u64>(BASE + 0x100), 0x1122_3344_5566_7788);
    assert_eq!(mem.read::<u32>(BASE + 0x104), 0x1122_3344);
}

#[test]
fn a_value_that_crosses_the_end_lies_outside() {
    let mem = region();
    assert!(mem.contains_range(BASE + SIZE as u64 - 8, 8));
    assert_eq!(mem.read::<u64>(BASE + SIZE as u64 - 8), 0);
    assert!(!mem.contains_range(BASE + SIZE as u64 - 7, 8));
    assert!(!mem.contains_range(BASE - 1, 2));
    assert!(!mem.contains_range(u64::MAX, 1));
}

#[test]
fn a_new_region_holds_zeros() {
    let mem = region();
    let mut all = vec![0xffu8; SIZE];
    mem.read_bytes(BASE, &mut all);
    assert!(all.iter().all(|b| *b == 0));
}
