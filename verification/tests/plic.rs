use riscv_hypervisor::plic::{knows_read, knows_write, Plic};

const CLAIM: u64 = 0x20_0004;

#[test]
fn new_plic_has_nothing_pending() {
    let plic = Plic::new();
    assert!(!plic.has_pending_irqs());
    assert_eq!(plic.handle_read(CLAIM, 4), 0);
}

#[test]
fn claim_returns_the_raised_irq_and_complete_removes_it() {
    let mut plic = Plic::new();
    plic.add_pending_irq(5);
    assert!(plic.has_pending_irqs());
    assert_eq!(plic.handle_read(CLAIM, 4), 5);
    // A claim does not remove the interrupt.
    assert_eq!(plic.handle_read(CLAIM, 4), 5);
    plic.handle_write(CLAIM, 5, 4);
    assert_eq!(plic.handle_read(CLAIM, 4), 0);
    assert!(!plic.has_pending_irqs());
}

#[test]
fn claim_returns_lowest_pending() {
    let mut plic = Plic::new();
    plic.add_pending_irq(7);
    plic.add_pending_irq(3);
    plic.add_pending_irq(9);
    assert_eq!(plic.handle_read(CLAIM, 4), 3);
    plic.handle_write(CLAIM, 3, 4);
    assert_eq!(plic.handle_read(CLAIM, 4), 7);
    plic.handle_write(CLAIM, 7, 4);
    assert_eq!(plic.handle_read(CLAIM, 4), 9);
    plic.handle_write(CLAIM, 9, 4);
    assert_eq!(plic.handle_read(CLAIM, 4), 0);
}

#[test]
fn adding_an_irq_twice_keeps_one() {
    let mut plic = Plic::new();
    plic.add_pending_irq(1);
    plic.add_pending_irq(1);
    plic.handle_write(CLAIM, 1, 4);
    assert!(!plic.has_pending_irqs());
}

#[test]
fn completing_an_irq_that_is_not_pending_changes_nothing() {
    let mut plic = Plic::new();
    plic.add_pending_irq(2);
    plic.handle_write(CLAIM, 1, 4);
    assert_eq!(plic.handle_read(CLAIM, 4), 2);
    plic.handle_write(CLAIM, 0x1_0002, 4);
    assert_eq!(plic.handle_read(CLAIM, 4), 2);
}

#[test]
fn claim_register_of_every_context_works() {
    let mut plic = Plic::new();
    plic.add_pending_irq(1);
    assert_eq!(plic.handle_read(0x20_1004, 4), 1);
    assert_eq!(plic.handle_read(0x3ff_f004, 4), 1);
    plic.handle_write(0x20_1004, 1, 4);
    assert!(!plic.has_pending_irqs());
}

#[test]
fn other_registers_read_zero_and_ignore_writes() {
    let mut plic = Plic::new();
    plic.add_pending_irq(1);
    // priority, enable, threshold, beyond the window, wrong width
    for (offset, width) in [
        (0x0000u64, 4u64),
        (0x0ffc, 4),
        (0x1000, 4),
        (0x2000, 4),
        (0x1f_fffc, 4),
        (0x20_0000, 4),
        (0x20_0008, 4),
        (0x400_0004, 4),
        (CLAIM, 8),
        (CLAIM, 1),
    ] {
        assert_eq!(plic.handle_read(offset, width), 0);
        plic.handle_write(offset, 1, width);
        assert!(plic.has_pending_irqs());
    }
    assert_eq!(plic.handle_read(CLAIM, 4), 1);
}

#[test]
fn irq_zero_reads_like_nothing_pending() {
    let mut plic = Plic::new();
    plic.add_pending_irq(0);
    assert!(plic.has_pending_irqs());
    assert_eq!(plic.handle_read(CLAIM, 4), 0);
    plic.handle_write(CLAIM, 0, 4);
    assert!(!plic.has_pending_irqs());
}

#[test]
fn known_registers() {
    assert!(knows_read(0x0, 4) && knows_write(0x0, 4));
    assert!(knows_read(0xffc, 4) && knows_write(0xffc, 4));
    assert!(!knows_read(0x1000, 4) && !knows_write(0x1000, 4));
    assert!(!knows_read(0x1ffc, 4) && !knows_write(0x1ffc, 4));
    assert!(knows_read(0x2000, 4) && knows_write(0x2000, 4));
    assert!(knows_read(0x1f_fffc, 4) && knows_write(0x1f_fffc, 4));
    assert!(!knows_read(0x20_0000, 4) && knows_write(0x20_0000, 4));
    assert!(knows_read(CLAIM, 4) && knows_write(CLAIM, 4));
    assert!(!knows_read(0x20_0008, 4) && !knows_write(0x20_0008, 4));
    assert!(knows_read(0x3ff_f004, 4) && knows_write(0x3ff_f000, 4));
    assert!(!knows_read(0x400_0004, 4) && !knows_write(0x400_0000, 4));
    assert!(!knows_read(CLAIM, 8) && !knows_write(CLAIM, 2));
    assert!(!knows_read(0x0, 1) && !knows_write(0x2000, 8));
}
