use riscv_hypervisor::fault::Fault;
use riscv_hypervisor::guest_memory::GuestMemory;
use riscv_hypervisor::plic::Plic;
use riscv_hypervisor::virtio_blk::{set_high_32, set_low_32, BlockRequest, VirtioBlk};

const BASE: u64 = 0x8000_0000;
const SIZE: usize = 0x1_0000;
const DESC: u64 = BASE + 0x1000;
const AVAIL: u64 = BASE + 0x2000;
const USED: u64 = BASE + 0x3000;
const HEADERS: u64 = BASE + 0x4000;
const STATUS: u64 = BASE + 0x5000;
const DATA: u64 = BASE + 0x8000;
const CLAIM: u64 = 0x20_0004;

struct Bench {
    dev: VirtioBlk,
    ram: GuestMemory<SIZE>,
    plic: Plic,
    disk: Vec<u8>,
}

fn disk(len: usize) -> Vec<u8> {
    (0..len).map(|i| (i * 7 % 253) as u8 + 1).collect()
}

fn bench(queue_size: u32, disk_len: usize) -> Bench {
    let mut b = Bench {
        dev: VirtioBlk::new(),
        ram: GuestMemory::<SIZE>::new(BASE, 0x9000_0000, vec![0u8; SIZE]),
        plic: Plic::new(),
        disk: disk(disk_len),
    };
    for (offset, value) in [
        (0x30u64, 0u64),
        (0x38, queue_size as u64),
        (0x80, DESC & 0xffff_ffff),
        (0x84, DESC >> 32),
        (0x90, AVAIL & 0xffff_ffff),
        (0x94, AVAIL >> 32),
        (0xa0, USED & 0xffff_ffff),
        (0xa4, USED >> 32),
        (0x44, 1),
    ] {
        assert_eq!(write(&mut b, offset, value), Ok(()));
    }
    b
}

/// A store of 4 bytes: served unless the device tells a fault.
fn write(b: &mut Bench, offset: u64, value: u64) -> Result<(), Fault> {
    match b.dev.write_fault(&b.ram, &b.disk, offset, value, 4) {
        Some(fault) => Err(fault),
        None => {
            b.dev.handle_mmio_write(&mut b.ram, &mut b.plic, &b.disk, offset, value, 4);
            Ok(())
        }
    }
}

/// A load of 4 bytes: served unless the device tells a fault.
fn read(b: &Bench, offset: u64) -> Result<u64, Fault> {
    match b.dev.read_fault(offset, 4) {
        Some(fault) => Err(fault),
        None => Ok(b.dev.handle_mmio_read(&b.disk, offset, 4)),
    }
}

fn put_desc(b: &mut Bench, index: u16, addr: u64, len: u32, flags: u16, next: u16) {
    let mut bytes = Vec::new();
    bytes.extend_from_slice(&addr.to_le_bytes());
    bytes.extend_from_slice(&len.to_le_bytes());
    bytes.extend_from_slice(&flags.to_le_bytes());
    bytes.extend_from_slice(&next.to_le_bytes());
    b.ram.write_bytes(DESC + 16 * index as u64, &bytes);
}

/// Writes request number `n` as a chain of three descriptors from `head` on
/// and enters it in slot `slot` of the available ring.
fn put_request(b: &mut Bench, n: u64, slot: u16, head: u16, req_type: u32, sector: u64, len: u32) {
    let header = HEADERS + 16 * n;
    let mut bytes = Vec::new();
    bytes.extend_from_slice(&req_type.to_le_bytes());
    bytes.extend_from_slice(&0u32.to_le_bytes());
    bytes.extend_from_slice(&sector.to_le_bytes());
    b.ram.write_bytes(header, &bytes);
    b.ram.write_bytes(STATUS + n, &[0xff]);
    put_desc(b, head, header, 16, 1, head + 1);
    put_desc(b, head + 1, DATA + 0x1000 * n, len, 3, head + 2);
    put_desc(b, head + 2, STATUS + n, 1, 2, 0);
    b.ram.write_bytes(AVAIL + 4 + 2 * slot as u64, &head.to_le_bytes());
}

fn set_avail_idx(b: &mut Bench, idx: u16) {
    b.ram.write_bytes(AVAIL + 2, &idx.to_le_bytes());
}

fn used_idx(b: &Bench) -> u16 {
    b.ram.read::<u16>(USED + 2)
}

fn used_elem(b: &Bench, slot: u64) -> (u32, u32) {
    (b.ram.read::<u32>(USED + 4 + 8 * slot), b.ram.read::<u32>(USED + 8 + 8 * slot))
}

fn bytes_at(b: &Bench, addr: u64, len: usize) -> Vec<u8> {
    let mut out = vec![0u8; len];
    b.ram.read_bytes(addr, &mut out);
    out
}

#[test]
fn identification_registers() {
    let b = bench(8, 4096);
    assert_eq!(read(&b, 0x00), Ok(0x7472_6976));
    assert_eq!(read(&b, 0x04), Ok(2));
    assert_eq!(read(&b, 0x08), Ok(2));
    assert_eq!(read(&b, 0x0c), Ok(0x554d_4551));
    assert_eq!(read(&b, 0x34), Ok(256));
    assert_eq!(read(&b, 0xfc), Ok(0));
}

#[test]
fn a_new_device_is_all_zero() {
    let dev = VirtioBlk::new();
    assert_eq!(dev.status, 0);
    assert_eq!(dev.requestq_ready, 0);
    assert_eq!(dev.requestq_size, 0);
    assert_eq!(dev.requestq_desc_addr, 0);
    assert_eq!(dev.requestq_driver_addr, 0);
    assert_eq!(dev.requestq_device_addr, 0);
    assert_eq!(dev.requestq_next_avail, 0);
    assert_eq!(dev.irq_status, 0);
    assert_eq!(dev.read_fault(0x70, 4), None);
    assert_eq!(dev.handle_mmio_read(&[], 0x70, 4), 0);
}

#[test]
fn device_features_offer_version_1_in_the_high_window() {
    let mut b = bench(8, 4096);
    assert_eq!(read(&b, 0x10), Ok(0));
    write(&mut b, 0x14, 1).unwrap();
    assert_eq!(read(&b, 0x10), Ok(1));
    write(&mut b, 0x14, 2).unwrap();
    assert_eq!(read(&b, 0x10), Err(Fault::UnknownVirtioRead));
    write(&mut b, 0x14, 0).unwrap();
    assert_eq!(read(&b, 0x10), Ok(0));
}

#[test]
fn driver_features_are_kept_per_window() {
    let mut b = bench(8, 4096);
    write(&mut b, 0x24, 0).unwrap();
    write(&mut b, 0x20, 0x1234).unwrap();
    write(&mut b, 0x24, 1).unwrap();
    write(&mut b, 0x20, 0x1).unwrap();
    assert_eq!(read(&b, 0x20), Ok(1));
    write(&mut b, 0x24, 0).unwrap();
    assert_eq!(read(&b, 0x20), Ok(0x1234));
    // a window that does not exist takes the write and keeps nothing
    write(&mut b, 0x24, 5).unwrap();
    assert_eq!(write(&mut b, 0x20, 0xffff), Ok(()));
    assert_eq!(read(&b, 0x20), Err(Fault::UnknownVirtioRead));
    assert_eq!(b.dev.driver_features_low, 0x1234);
    assert_eq!(b.dev.driver_features_high, 1);
}

#[test]
fn status_and_queue_registers_read_back() {
    let mut b = bench(8, 4096);
    write(&mut b, 0x70, 0xf).unwrap();
    assert_eq!(read(&b, 0x70), Ok(0xf));
    assert_eq!(read(&b, 0x38), Ok(8));
    assert_eq!(read(&b, 0x44), Ok(1));
    write(&mut b, 0x44, 0).unwrap();
    assert_eq!(read(&b, 0x44), Ok(0));
    // a reset of the status leaves the queue as it is
    write(&mut b, 0x70, 0).unwrap();
    assert_eq!(read(&b, 0x38), Ok(8));
    assert_eq!(read(&b, 0x80), Ok(DESC & 0xffff_ffff));
}

#[test]
fn queue_addresses_are_written_in_halves() {
    let mut b = bench(8, 4096);
    write(&mut b, 0x80, 0x89ab_cdef).unwrap();
    write(&mut b, 0x84, 0x0123_4567).unwrap();
    assert_eq!(b.dev.requestq_desc_addr, 0x0123_4567_89ab_cdef);
    assert_eq!(read(&b, 0x80), Ok(0x89ab_cdef));
    assert_eq!(read(&b, 0x84), Ok(0x0123_4567));
    write(&mut b, 0x90, 0x1111_2222).unwrap();
    write(&mut b, 0x94, 0x3333_4444).unwrap();
    assert_eq!(b.dev.requestq_driver_addr, 0x3333_4444_1111_2222);
    write(&mut b, 0xa0, 0x5555_6666).unwrap();
    write(&mut b, 0xa4, 0x7777_8888).unwrap();
    assert_eq!(b.dev.requestq_device_addr, 0x7777_8888_5555_6666);
    assert_eq!(read(&b, 0x90), Ok(0x1111_2222));
    assert_eq!(read(&b, 0x94), Ok(0x3333_4444));
    assert_eq!(read(&b, 0xa0), Ok(0x5555_6666));
    assert_eq!(read(&b, 0xa4), Ok(0x7777_8888));
    // rewriting the low half keeps the high half
    write(&mut b, 0x80, 0x1).unwrap();
    assert_eq!(b.dev.requestq_desc_addr, 0x0123_4567_0000_0001);
}

#[test]
fn only_the_low_32_bits_of_a_store_count() {
    let mut b = bench(8, 4096);
    write(&mut b, 0x80, 0xffff_ffff_0000_0010).unwrap();
    write(&mut b, 0x84, 0).unwrap();
    assert_eq!(b.dev.requestq_desc_addr, 0x10);
    write(&mut b, 0x70, 0x1_0000_0003).unwrap();
    assert_eq!(read(&b, 0x70), Ok(3));
    assert_eq!(write(&mut b, 0x30, 0x1_0000_0000), Ok(()));
}

#[test]
fn set_low_and_high_halves() {
    let mut value = 0x1111_2222_3333_4444u64;
    set_low_32(&mut value, 0xaaaa_bbbb);
    assert_eq!(value, 0x1111_2222_aaaa_bbbb);
    set_high_32(&mut value, 0xcccc_dddd);
    assert_eq!(value, 0xcccc_dddd_aaaa_bbbb);
    set_high_32(&mut value, 0xffff_ffff_0000_0001);
    assert_eq!(value, 0x0000_0001_aaaa_bbbb);
    let mut value = 0u64;
    set_low_32(&mut value, 0x1_0000_0002);
    assert_eq!(value, 0x1_0000_0002);
}

#[test]
fn capacity_is_the_number_of_whole_sectors() {
    let b = bench(8, 4096);
    assert_eq!(read(&b, 0x100), Ok(8));
    assert_eq!(read(&b, 0x104), Ok(0));
    let b = bench(8, 1023);
    assert_eq!(read(&b, 0x100), Ok(1));
    let b = bench(8, 0);
    assert_eq!(read(&b, 0x100), Ok(0));
}

#[test]
fn accesses_must_be_four_bytes_wide() {
    let mut b = bench(8, 4096);
    for width in [1u64, 2, 8, 0] {
        assert_eq!(b.dev.read_fault(0x00, width), Some(Fault::BadAccessWidth));
        assert_eq!(b.dev.write_fault(&b.ram, &b.disk, 0x70, 1, width), Some(Fault::BadAccessWidth));
        // even queue notify and registers that do not exist
        assert_eq!(b.dev.write_fault(&b.ram, &b.disk, 0x50, 0, width), Some(Fault::BadAccessWidth));
        assert_eq!(b.dev.read_fault(0x18, width), Some(Fault::BadAccessWidth));
    }
    assert_eq!(b.dev.read_fault(0x00, 4), None);
    assert_eq!(b.dev.write_fault(&b.ram, &b.disk, 0x70, 1, 4), None);
    let before = b.dev;
    assert_eq!(write(&mut b, 0x70, before.status as u64), Ok(()));
    assert_eq!(b.dev, before);
}

#[test]
fn unknown_registers_are_faults() {
    let mut b = bench(8, 4096);
    for offset in [0x14u64, 0x24, 0x30, 0x50, 0x64, 0x18, 0x108, 0x1000, 0x101] {
        assert_eq!(read(&b, offset), Err(Fault::UnknownVirtioRead));
    }
    for offset in [0x00u64, 0x04, 0x08, 0x0c, 0x10, 0x34, 0xfc, 0x100, 0x104, 0x18, 0x81] {
        let before = b.dev;
        assert_eq!(write(&mut b, offset, 0), Err(Fault::UnknownVirtioWrite));
        assert_eq!(b.dev, before);
    }
}

#[test]
fn only_queue_zero_can_be_selected_and_notified() {
    let mut b = bench(8, 4096);
    assert_eq!(write(&mut b, 0x30, 0), Ok(()));
    assert_eq!(write(&mut b, 0x30, 1), Err(Fault::UnsupportedQueue));
    assert_eq!(write(&mut b, 0x50, 1), Err(Fault::UnsupportedQueue));
    assert_eq!(write(&mut b, 0x50, 0), Ok(()));
}

#[test]
fn interrupt_status_is_cleared_by_writing_ones() {
    let mut b = bench(8, 4096);
    b.dev.irq_status = 0b111;
    assert_eq!(read(&b, 0x60), Ok(0b111));
    write(&mut b, 0x60, 0b010).unwrap();
    assert_eq!(read(&b, 0x60), Ok(0b101));
    write(&mut b, 0x64, 0b111).unwrap();
    assert_eq!(read(&b, 0x60), Ok(0b101));
    write(&mut b, 0x60, 0xffff_ffff).unwrap();
    assert_eq!(read(&b, 0x60), Ok(0));
}

#[test]
fn a_single_read_request_is_served() {
    let mut b = bench(8, 4096);
    put_request(&mut b, 0, 0, 0, 0, 0, 512);
    set_avail_idx(&mut b, 1);
    assert_eq!(write(&mut b, 0x50, 0), Ok(()));
    assert_eq!(used_idx(&b), 1);
    assert_eq!(b.ram.read::<u16>(AVAIL + 2), 1);
    assert_eq!(b.dev.requestq_next_avail, 1);
    assert_eq!(bytes_at(&b, STATUS, 1), vec![0]);
    assert_eq!(bytes_at(&b, DATA, 512), b.disk[0..512].to_vec());
    assert_eq!(bytes_at(&b, DATA + 512, 16), vec![0u8; 16]);
    assert_eq!(used_elem(&b, 0), (0, 512));
    assert_eq!(b.dev.irq_status & 1, 1);
    assert_eq!(read(&b, 0x60), Ok(1));
    assert!(b.plic.has_pending_irqs());
    assert_eq!(b.plic.handle_read(CLAIM, 4), 1);
}

#[test]
fn a_notify_without_new_requests_does_nothing() {
    let mut b = bench(8, 4096);
    assert_eq!(write(&mut b, 0x50, 0), Ok(()));
    assert_eq!(used_idx(&b), 0);
    assert_eq!(b.dev.irq_status, 0);
    assert!(!b.plic.has_pending_irqs());
    put_request(&mut b, 0, 0, 0, 0, 1, 512);
    set_avail_idx(&mut b, 1);
    assert_eq!(write(&mut b, 0x50, 0), Ok(()));
    assert_eq!(used_idx(&b), 1);
    // a second notify finds nothing new
    b.ram.write_bytes(DATA, &[0u8; 512]);
    assert_eq!(write(&mut b, 0x50, 0), Ok(()));
    assert_eq!(used_idx(&b), 1);
    assert_eq!(bytes_at(&b, DATA, 512), vec![0u8; 512]);
}

#[test]
fn a_queue_that_is_not_ready_is_left_alone() {
    let mut b = bench(8, 4096);
    write(&mut b, 0x44, 0).unwrap();
    put_request(&mut b, 0, 0, 0, 0, 0, 512);
    set_avail_idx(&mut b, 1);
    assert_eq!(write(&mut b, 0x50, 0), Ok(()));
    assert_eq!(used_idx(&b), 0);
    assert_eq!(bytes_at(&b, STATUS, 1), vec![0xff]);
    assert_eq!(b.dev.requestq_next_avail, 0);
    assert!(!b.plic.has_pending_irqs());
    // even rings outside of RAM do no harm then
    write(&mut b, 0x90, 0).unwrap();
    assert_eq!(write(&mut b, 0x50, 0), Ok(()));
}

#[test]
fn several_requests_are_served_in_ring_order() {
    let mut b = bench(4, 8192);
    // heads 9, 3 and 6, sectors 2, 0 and 5
    put_request(&mut b, 0, 0, 9, 0, 2, 512);
    put_request(&mut b, 1, 1, 3, 0, 0, 1024);
    put_request(&mut b, 2, 2, 6, 0, 5, 100);
    set_avail_idx(&mut b, 3);
    assert_eq!(write(&mut b, 0x50, 0), Ok(()));
    assert_eq!(used_idx(&b), 3);
    assert_eq!(b.dev.requestq_next_avail, 3);
    assert_eq!(used_elem(&b, 0), (9, 512));
    assert_eq!(used_elem(&b, 1), (3, 1024));
    assert_eq!(used_elem(&b, 2), (6, 100));
    assert_eq!(bytes_at(&b, DATA, 512), b.disk[1024..1536].to_vec());
    assert_eq!(bytes_at(&b, DATA + 0x1000, 1024), b.disk[0..1024].to_vec());
    assert_eq!(bytes_at(&b, DATA + 0x2000, 100), b.disk[2560..2660].to_vec());
    assert_eq!(bytes_at(&b, DATA + 0x2000 + 100, 8), vec![0u8; 8]);
    assert_eq!(bytes_at(&b, STATUS, 3), vec![0, 0, 0]);
    assert_eq!(b.plic.handle_read(CLAIM, 4), 1);
}

#[test]
fn the_ring_wraps_around_the_queue_size() {
    let mut b = bench(2, 4096);
    for round in 0..5u16 {
        let slot = round % 2;
        put_request(&mut b, round as u64 % 4, slot, 3 * slot, 0, round as u64, 512);
        set_avail_idx(&mut b, round + 1);
        assert_eq!(write(&mut b, 0x50, 0), Ok(()));
        assert_eq!(used_idx(&b), round + 1);
        assert_eq!(used_elem(&b, slot as u64), (3 * slot as u32, 512));
        let start = round as usize * 512;
        assert_eq!(bytes_at(&b, DATA + 0x1000 * (round as u64 % 4), 512), b.disk[start..start + 512].to_vec());
    }
}

#[test]
fn the_used_index_wraps_at_sixteen_bits() {
    let mut b = bench(8, 4096);
    b.dev.requestq_next_avail = 0xffff;
    put_request(&mut b, 0, 7, 0, 0, 0, 512);
    put_request(&mut b, 1, 0, 3, 0, 1, 512);
    set_avail_idx(&mut b, 1);
    assert_eq!(write(&mut b, 0x50, 0), Ok(()));
    assert_eq!(b.dev.requestq_next_avail, 1);
    assert_eq!(used_idx(&b), 1);
    assert_eq!(used_elem(&b, 7), (0, 512));
    assert_eq!(used_elem(&b, 0), (3, 512));
}

#[test]
fn a_read_is_cut_at_the_end_of_the_disk() {
    let mut b = bench(8, 1000);
    put_request(&mut b, 0, 0, 0, 0, 1, 512);
    set_avail_idx(&mut b, 1);
    assert_eq!(write(&mut b, 0x50, 0), Ok(()));
    assert_eq!(used_elem(&b, 0), (0, 488));
    assert_eq!(bytes_at(&b, DATA, 488), b.disk[512..1000].to_vec());
    assert_eq!(bytes_at(&b, DATA + 488, 24), vec![0u8; 24]);
    assert_eq!(bytes_at(&b, STATUS, 1), vec![0]);
}

#[test]
fn a_read_beyond_the_disk_transfers_nothing() {
    let mut b = bench(8, 1024);
    put_request(&mut b, 0, 0, 0, 0, 2, 512);
    put_request(&mut b, 1, 1, 3, 0, 3, 512);
    put_request(&mut b, 2, 2, 6, 0, u64::MAX, 512);
    set_avail_idx(&mut b, 3);
    assert_eq!(write(&mut b, 0x50, 0), Ok(()));
    assert_eq!(used_idx(&b), 3);
    assert_eq!(used_elem(&b, 0), (0, 0));
    assert_eq!(used_elem(&b, 1), (3, 0));
    assert_eq!(used_elem(&b, 2), (6, 0));
    assert_eq!(bytes_at(&b, DATA, 512), vec![0u8; 512]);
    assert_eq!(bytes_at(&b, STATUS, 3), vec![0, 0, 0]);
}

#[test]
fn a_request_that_is_no_read_is_a_fault() {
    for req_type in [1u32, 4, 8, 0xffff_ffff] {
        let mut b = bench(8, 4096);
        put_request(&mut b, 0, 0, 0, req_type, 0, 512);
        set_avail_idx(&mut b, 1);
        assert_eq!(write(&mut b, 0x50, 0), Err(Fault::UnsupportedRequest));
        assert_eq!(used_idx(&b), 0);
        assert_eq!(b.dev.requestq_next_avail, 0);
        assert_eq!(bytes_at(&b, STATUS, 1), vec![0xff]);
        assert_eq!(bytes_at(&b, DATA, 16), vec![0u8; 16]);
        assert!(!b.plic.has_pending_irqs());
    }
}

#[test]
fn a_fault_in_the_run_is_told_before_anything_is_served() {
    let mut b = bench(8, 4096);
    put_request(&mut b, 0, 0, 0, 0, 0, 512);
    put_request(&mut b, 1, 1, 3, 1, 0, 512);
    put_request(&mut b, 2, 2, 6, 0, 0, 512);
    set_avail_idx(&mut b, 3);
    assert_eq!(b.dev.queue_fault(&b.ram, &b.disk, 0), Some(Fault::UnsupportedRequest));
    assert_eq!(write(&mut b, 0x50, 0), Err(Fault::UnsupportedRequest));
    assert_eq!(used_idx(&b), 0);
    assert_eq!(b.dev.requestq_next_avail, 0);
    assert_eq!(bytes_at(&b, STATUS, 3), vec![0xff, 0xff, 0xff]);
    assert_eq!(bytes_at(&b, DATA, 16), vec![0u8; 16]);
    assert!(!b.plic.has_pending_irqs());
    // once the driver takes the request back, the run goes through
    put_request(&mut b, 1, 1, 3, 0, 1, 512);
    assert_eq!(b.dev.queue_fault(&b.ram, &b.disk, 0), None);
    assert_eq!(write(&mut b, 0x50, 0), Ok(()));
    assert_eq!(used_idx(&b), 3);
}

#[test]
fn telling_a_queue_fault_changes_nothing() {
    let mut b = bench(8, 4096);
    put_request(&mut b, 0, 0, 0, 0, 0, 512);
    set_avail_idx(&mut b, 1);
    let before = b.dev;
    assert_eq!(b.dev.queue_fault(&b.ram, &b.disk, 0), None);
    assert_eq!(b.dev.write_fault(&b.ram, &b.disk, 0x50, 0, 4), None);
    assert_eq!(b.dev, before);
    assert_eq!(used_idx(&b), 0);
    assert_eq!(bytes_at(&b, STATUS, 1), vec![0xff]);
    assert_eq!(bytes_at(&b, DATA, 16), vec![0u8; 16]);
}

#[test]
fn a_queue_of_size_zero_cannot_be_served() {
    let mut b = bench(0, 4096);
    // nothing pending: nothing to do
    assert_eq!(write(&mut b, 0x50, 0), Ok(()));
    set_avail_idx(&mut b, 1);
    assert_eq!(write(&mut b, 0x50, 0), Err(Fault::EmptyQueue));
}

#[test]
fn rings_outside_of_ram_are_faults() {
    // available ring
    let mut b = bench(8, 4096);
    write(&mut b, 0x90, 0x1000).unwrap();
    assert_eq!(write(&mut b, 0x50, 0), Err(Fault::OutOfRange));
    // descriptor table
    let mut b = bench(8, 4096);
    put_request(&mut b, 0, 0, 0, 0, 0, 512);
    set_avail_idx(&mut b, 1);
    write(&mut b, 0x80, 0xffff_fff0).unwrap();
    write(&mut b, 0x84, 0xffff_ffff).unwrap();
    assert_eq!(write(&mut b, 0x50, 0), Err(Fault::OutOfRange));
    // used ring
    let mut b = bench(8, 4096);
    put_request(&mut b, 0, 0, 0, 0, 0, 512);
    set_avail_idx(&mut b, 1);
    write(&mut b, 0xa0, 0).unwrap();
    assert_eq!(write(&mut b, 0x50, 0), Err(Fault::OutOfRange));
    assert_eq!(bytes_at(&b, DATA, 512), vec![0u8; 512]);
    assert_eq!(bytes_at(&b, STATUS, 1), vec![0xff]);
    assert_eq!(b.dev.requestq_next_avail, 0);
    assert_eq!(b.dev.irq_status, 0);
    assert!(!b.plic.has_pending_irqs());
}

#[test]
fn buffers_outside_of_ram_are_faults() {
    // header
    let mut b = bench(8, 4096);
    put_request(&mut b, 0, 0, 0, 0, 0, 512);
    put_desc(&mut b, 0, 0x1000, 16, 1, 1);
    set_avail_idx(&mut b, 1);
    assert_eq!(write(&mut b, 0x50, 0), Err(Fault::OutOfRange));
    // data buffer that runs over the end of RAM
    let mut b = bench(8, 4096);
    put_request(&mut b, 0, 0, 0, 0, 0, 512);
    put_desc(&mut b, 1, BASE + SIZE as u64 - 100, 512, 3, 2);
    set_avail_idx(&mut b, 1);
    assert_eq!(write(&mut b, 0x50, 0), Err(Fault::OutOfRange));
    assert_eq!(bytes_at(&b, BASE + SIZE as u64 - 100, 100), vec![0u8; 100]);
    assert_eq!(bytes_at(&b, STATUS, 1), vec![0xff]);
    // status byte
    let mut b = bench(8, 4096);
    put_request(&mut b, 0, 0, 0, 0, 0, 512);
    put_desc(&mut b, 2, BASE + SIZE as u64, 1, 2, 0);
    set_avail_idx(&mut b, 1);
    assert_eq!(write(&mut b, 0x50, 0), Err(Fault::OutOfRange));
    assert_eq!(used_idx(&b), 0);
}

#[test]
fn the_chain_follows_next_whatever_the_flags_say() {
    let mut b = bench(8, 4096);
    put_request(&mut b, 0, 0, 0, 0, 3, 64);
    // the same chain scattered over the table, without flags
    put_desc(&mut b, 0, HEADERS, 16, 0, 5);
    put_desc(&mut b, 5, DATA + 0x40, 64, 0, 2);
    put_desc(&mut b, 2, STATUS + 9, 1, 0, 0);
    b.ram.write_bytes(STATUS + 9, &[0xff]);
    set_avail_idx(&mut b, 1);
    assert_eq!(write(&mut b, 0x50, 0), Ok(()));
    assert_eq!(bytes_at(&b, DATA + 0x40, 64), b.disk[1536..1600].to_vec());
    assert_eq!(bytes_at(&b, STATUS + 9, 1), vec![0]);
    assert_eq!(used_elem(&b, 0), (0, 64));
}

#[test]
fn process_queue_is_what_a_notify_runs() {
    let mut b = bench(8, 4096);
    put_request(&mut b, 0, 0, 0, 0, 0, 512);
    set_avail_idx(&mut b, 1);
    assert_eq!(b.dev.queue_fault(&b.ram, &b.disk, 1), Some(Fault::UnsupportedQueue));
    assert_eq!(b.dev.queue_fault(&b.ram, &b.disk, 0), None);
    b.dev.process_queue(&mut b.ram, &mut b.plic, &b.disk, 0);
    assert_eq!(used_idx(&b), 1);
}

#[test]
fn the_plan_names_the_requests_without_serving_them() {
    let mut b = bench(4, 8192);
    put_request(&mut b, 0, 0, 9, 0, 2, 512);
    put_request(&mut b, 1, 1, 3, 0, 0, 1024);
    set_avail_idx(&mut b, 2);
    let plan = b.dev.plan_queue(&b.ram, &b.disk, 0).unwrap();
    assert_eq!(
        plan,
        vec![
            BlockRequest {
                head: 9,
                req_type: 0,
                sector: 2,
                data_addr: DATA,
                data_len: 512,
                status_addr: STATUS,
            },
            BlockRequest {
                head: 3,
                req_type: 0,
                sector: 0,
                data_addr: DATA + 0x1000,
                data_len: 1024,
                status_addr: STATUS + 1,
            },
        ]
    );
    assert_eq!(used_idx(&b), 0);
    assert_eq!(b.dev.requestq_next_avail, 0);
    assert_eq!(bytes_at(&b, STATUS, 2), vec![0xff, 0xff]);
    assert_eq!(b.dev.plan_queue(&b.ram, &b.disk, 1), Err(Fault::UnsupportedQueue));
    b.dev.requestq_ready = 0;
    assert_eq!(b.dev.plan_queue(&b.ram, &b.disk, 0), Ok(vec![]));
}

#[test]
fn requests_are_read_before_any_is_served() {
    // the data of the first request lands on the header of the second:
    // the second is served as the driver wrote it
    let mut b = bench(4, 8192);
    put_request(&mut b, 0, 0, 0, 0, 1, 512);
    put_request(&mut b, 1, 1, 3, 0, 2, 512);
    put_desc(&mut b, 1, HEADERS + 16, 512, 3, 2);
    set_avail_idx(&mut b, 2);
    assert_eq!(write(&mut b, 0x50, 0), Ok(()));
    assert_eq!(used_idx(&b), 2);
    assert_eq!(used_elem(&b, 0), (0, 512));
    assert_eq!(used_elem(&b, 1), (3, 512));
    assert_eq!(bytes_at(&b, HEADERS + 16, 512), b.disk[512..1024].to_vec());
    assert_eq!(bytes_at(&b, DATA + 0x1000, 512), b.disk[1024..1536].to_vec());
}
