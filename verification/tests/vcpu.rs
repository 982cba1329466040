use riscv_hypervisor::allocator::PageAllocator;
use riscv_hypervisor::guest_page_table::GuestPageTable;
use riscv_hypervisor::vcpu::{VCpu, HOST_STACK_SIZE, HSTATUS_GUEST, SSTATUS_GUEST};

fn table() -> GuestPageTable {
    GuestPageTable::new(PageAllocator::new(0x9000_0000, 0x9000_1000)).unwrap()
}

#[test]
fn a_new_vcpu_enters_the_guest_in_vs_mode() {
    let table = table();
    let mut alloc = PageAllocator::new(0xa000_0000, 0xa010_0000);
    let vcpu = VCpu::new(&table, 0x8000_0000, &mut alloc).unwrap();
    assert_eq!(vcpu.hstatus, (2 << 32) | (1 << 7));
    assert_eq!(vcpu.sstatus, 1 << 8);
    assert_eq!(vcpu.hstatus, HSTATUS_GUEST);
    assert_eq!(vcpu.sstatus, SSTATUS_GUEST);
    assert_eq!(vcpu.hgatp, table.hgatp());
    assert_eq!(vcpu.sepc, 0x8000_0000);
    assert_eq!(vcpu.host_sp, 0xa000_0000 + 512 * 1024);
    assert_eq!(HOST_STACK_SIZE, 512 * 1024);
    for reg in 0..32 {
        assert_eq!(vcpu.gpr(reg), 0);
    }
    assert_eq!(alloc.next_addr(), 0xa008_0000);
}

#[test]
fn without_room_for_the_stack_there_is_no_vcpu() {
    let table = table();
    let mut alloc = PageAllocator::new(0xa000_0000, 0xa007_f000);
    assert!(VCpu::new(&table, 0x8000_0000, &mut alloc).is_none());
    assert_eq!(alloc.next_addr(), 0xa000_0000);
}

#[test]
fn registers_are_found_by_number() {
    let mut vcpu = VCpu::default();
    for reg in 0..32u64 {
        vcpu.set_gpr(reg, 0x100 + reg);
    }
    assert_eq!(vcpu.gpr(0), 0);
    for reg in 1..32u64 {
        assert_eq!(vcpu.gpr(reg), 0x100 + reg);
    }
    assert_eq!(vcpu.ra, 0x101);
    assert_eq!(vcpu.sp, 0x102);
    assert_eq!(vcpu.gp, 0x103);
    assert_eq!(vcpu.tp, 0x104);
    assert_eq!(vcpu.t0, 0x105);
    assert_eq!(vcpu.t1, 0x106);
    assert_eq!(vcpu.t2, 0x107);
    assert_eq!(vcpu.s0, 0x108);
    assert_eq!(vcpu.s1, 0x109);
    assert_eq!(vcpu.a0, 0x10a);
    assert_eq!(vcpu.a1, 0x10b);
    assert_eq!(vcpu.a7, 0x111);
    assert_eq!(vcpu.s2, 0x112);
    assert_eq!(vcpu.s11, 0x11b);
    assert_eq!(vcpu.t3, 0x11c);
    assert_eq!(vcpu.t6, 0x11f);
    assert_eq!(vcpu.sepc, 0);
    assert_eq!(vcpu.host_sp, 0);
}

#[test]
fn a_write_to_x0_is_dropped() {
    let mut vcpu = VCpu::default();
    vcpu.set_gpr(0, 77);
    assert_eq!(vcpu, VCpu::default());
}

#[test]
fn the_default_vcpu_is_all_zero() {
    let vcpu = VCpu::default();
    assert_eq!(vcpu.hstatus, 0);
    assert_eq!(vcpu.hgatp, 0);
    assert_eq!(vcpu.a0, 0);
    assert_eq!(vcpu.t6, 0);
}
