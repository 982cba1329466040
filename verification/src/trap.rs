//! The trap dispatcher: SBI calls and the emulation of device accesses.

use crate::fault::Fault;
use crate::guest_memory::{GuestMemory, MemoryView};
use crate::linux_loader::{PLIC_ADDR, PLIC_END, VIRTIO_BLK_ADDR, VIRTIO_BLK_END};
use crate::plic::{
    is_known_read, is_known_write, knows_read, knows_write, pending_after_write, read_value, Plic,
};
use crate::vcpu::VCpu;
use crate::virtio_blk::{VirtioBlk, VIRTIO_BLK_IRQ};
use vstd::prelude::*;
use vstd::utf8::valid_utf8;

verus! {

/// `scause` of an environment call from VS-mode.
pub const CAUSE_VS_ECALL: u64 = 10;

/// `scause` of a load guest-page fault.
pub const CAUSE_LOAD_GUEST_PAGE_FAULT: u64 = 21;

/// `scause` of a store or AMO guest-page fault.
pub const CAUSE_STORE_GUEST_PAGE_FAULT: u64 = 23;

/// What an SBI call that is not supported leaves in `a0`: -1.
pub const SBI_ERR_FAILED: u64 = 0xffff_ffff_ffff_ffff;

/// What the guest talks to besides its registers: RAM of `SIZE` bytes, the
/// interrupt controller, the block device with its disk image, and the
/// bytes of the console line that is being collected.
pub struct Machine<const SIZE: usize> {
    pub ram: GuestMemory<SIZE>,
    pub plic: Plic,
    pub virtio_blk: VirtioBlk,
    pub disk: Vec<u8>,
    pub console: Vec<u8>,
}

/// What a `Machine` holds, as plain values.
pub struct MachineView {
    pub mem: MemoryView,
    pub pending: Set<u16>,
    pub virtio_blk: VirtioBlk,
    pub disk: Seq<u8>,
    pub console: Seq<u8>,
}

impl<const SIZE: usize> View for Machine<SIZE> {
    type V = MachineView;

    open spec fn view(&self) -> MachineView {
        MachineView {
            mem: self.ram@,
            pending: self.plic.pending(),
            virtio_blk: self.virtio_blk,
            disk: self.disk@,
            console: self.console@,
        }
    }
}

impl<const SIZE: usize> Machine<SIZE> {
    /// The RAM region is well formed.
    pub open spec fn wf(&self) -> bool {
        self.ram.wf()
    }
}

/// The control registers that describe a trap.
#[derive(Clone, Copy, Debug, PartialEq, Eq, Structural)]
pub struct TrapInfo {
    pub scause: u64,
    pub sepc: u64,
    pub stval: u64,
    pub htinst: u64,
    pub htval: u64,
}

/// The device that serves a guest-physical address.
#[derive(Clone, Copy, Debug, PartialEq, Eq, Structural)]
pub enum MmioTarget {
    /// The interrupt controller, with the offset of the register.
    Plic(u64),
    /// The block device, with the offset of the register.
    VirtioBlk(u64),
    /// No device.
    Unassigned,
}

/// The machine after a store, and the fault that the store ran into.
pub struct MmioOutcome {
    pub machine: MachineView,
    pub fault: Option<Fault>,
}

/// The registers and the console after an SBI call.
pub struct SbiOutcome {
    pub vcpu: VCpu,
    pub console: Seq<u8>,
    /// The line that the call completed, for the host's console.
    pub line: Option<Seq<u8>>,
    pub fault: Option<Fault>,
}

/// The guest's registers and the machine after a trap was served.
pub struct TrapOutcome {
    pub vcpu: VCpu,
    pub machine: MachineView,
    /// The line that the trap completed, for the host's console.
    pub line: Option<Seq<u8>>,
    pub fault: Option<Fault>,
}

/// The device whose register window holds `guest_addr`.
pub open spec fn spec_mmio_target(guest_addr: u64) -> MmioTarget {
    if PLIC_ADDR <= guest_addr < PLIC_END {
        MmioTarget::Plic((guest_addr - PLIC_ADDR) as u64)
    } else if VIRTIO_BLK_ADDR <= guest_addr < VIRTIO_BLK_END {
        MmioTarget::VirtioBlk((guest_addr - VIRTIO_BLK_ADDR) as u64)
    } else {
        MmioTarget::Unassigned
    }
}

/// A store of `width` bytes of `value` to `guest_addr`: it goes to the
/// device whose window holds the address. An address in guest RAM should
/// not have faulted and the store is dropped; any other address is a fault.
pub open spec fn spec_mmio_write(
    m: MachineView,
    guest_addr: u64,
    value: u64,
    width: u64,
) -> MmioOutcome {
    match spec_mmio_target(guest_addr) {
        MmioTarget::Plic(offset) => MmioOutcome {
            machine: MachineView {
                pending: pending_after_write(m.pending, offset, value, width),
                ..m
            },
            fault: None,
        },
        MmioTarget::VirtioBlk(offset) => if width == 4 {
            let out = m.virtio_blk.spec_write(m.mem, m.disk, offset, value);
            MmioOutcome {
                machine: MachineView {
                    virtio_blk: out.dev,
                    mem: out.mem,
                    pending: if out.completed > 0 {
                        m.pending.insert(VIRTIO_BLK_IRQ)
                    } else {
                        m.pending
                    },
                    ..m
                },
                fault: out.fault,
            }
        } else {
            MmioOutcome { machine: m, fault: Some(Fault::BadAccessWidth) }
        },
        MmioTarget::Unassigned => MmioOutcome {
            machine: m,
            fault: if m.mem.contains_range(guest_addr as int, 1) {
                None
            } else {
                Some(Fault::UnmappedAccess)
            },
        },
    }
}

/// What a load of `width` bytes from `guest_addr` returns: the register of
/// the device whose window holds the address. An address in guest RAM
/// should not have faulted and reads as 0; any other address is a fault.
pub open spec fn spec_mmio_read(m: MachineView, guest_addr: u64, width: u64) -> Result<u64, Fault> {
    match spec_mmio_target(guest_addr) {
        MmioTarget::Plic(offset) => Ok(read_value(m.pending, offset, width)),
        MmioTarget::VirtioBlk(offset) => if width == 4 {
            m.virtio_blk.spec_read(offset, m.disk.len())
        } else {
            Err(Fault::BadAccessWidth)
        },
        MmioTarget::Unassigned => if m.mem.contains_range(guest_addr as int, 1) {
            Ok(0)
        } else {
            Err(Fault::UnmappedAccess)
        },
    }
}

/// The bytes `[guest] `, which start every console line.
pub open spec fn spec_line_prefix() -> Seq<u8> {
    seq![0x5bu8, 0x67u8, 0x75u8, 0x65u8, 0x73u8, 0x74u8, 0x5du8, 0x20u8]
}

/// The bytes `(not utf-8)`, which stand for a line that is not text.
pub open spec fn spec_not_utf8() -> Seq<u8> {
    seq![0x28u8, 0x6eu8, 0x6fu8, 0x74u8, 0x20u8, 0x75u8, 0x74u8, 0x66u8, 0x2du8, 0x38u8, 0x29u8]
}

/// The line the host prints for the collected bytes `buffer`.
pub open spec fn spec_console_line(buffer: Seq<u8>) -> Seq<u8> {
    spec_line_prefix() + if valid_utf8(buffer) {
        buffer
    } else {
        spec_not_utf8()
    }
}

/// The console after the guest put a run of bytes on it.
pub struct ConsoleOutcome {
    /// The bytes of the line that is being collected.
    pub console: Seq<u8>,
    /// The lines that were completed, in order.
    pub lines: Seq<Seq<u8>>,
}

/// Putting the byte `ch` on the console: a newline completes the line that
/// was collected, any other byte joins it.
pub open spec fn spec_putchar(console: Seq<u8>, ch: u8) -> ConsoleOutcome {
    if ch == 0x0a {
        ConsoleOutcome { console: Seq::empty(), lines: seq![spec_console_line(console)] }
    } else {
        ConsoleOutcome { console: console.push(ch), lines: Seq::empty() }
    }
}

/// Putting `bytes` on the console, one after the other.
pub open spec fn spec_putchars(console: Seq<u8>, bytes: Seq<u8>) -> ConsoleOutcome
    decreases bytes.len(),
{
    if bytes.len() == 0 {
        ConsoleOutcome { console, lines: Seq::empty() }
    } else {
        let first = spec_putchar(console, bytes[0]);
        let rest = spec_putchars(first.console, bytes.subrange(1, bytes.len() as int));
        ConsoleOutcome { console: rest.console, lines: first.lines + rest.lines }
    }
}

/// The SBI call that the guest's `a7` (extension) and `a6` (function) name,
/// with its argument in `a0`.
pub open spec fn spec_sbi_call(vcpu: VCpu, console: Seq<u8>) -> SbiOutcome {
    let eid = vcpu.a7;
    let fid = vcpu.a6;
    let done = VCpu { a0: 0, a1: 0, ..vcpu };
    let failed = VCpu { a0: SBI_ERR_FAILED, ..vcpu };
    if eid == 0x01 && fid == 0 {
        let put = spec_putchar(console, (vcpu.a0 & 0xff) as u8);
        SbiOutcome {
            vcpu: done,
            console: put.console,
            line: if put.lines.len() == 0 {
                None
            } else {
                Some(put.lines[0])
            },
            fault: None,
        }
    } else if (eid == 0x00 && fid == 0) || (eid == 0x10 && (fid == 0 || fid == 4 || fid == 5 || fid
        == 6)) {
        SbiOutcome { vcpu: done, console, line: None, fault: None }
    } else if (eid == 0x10 && fid == 3) || (eid == 0x02 && fid == 0) {
        SbiOutcome { vcpu: failed, console, line: None, fault: None }
    } else {
        SbiOutcome { vcpu, console, line: None, fault: Some(Fault::UnknownSbiCall) }
    }
}

/// Bytes that the load or store in `htinst` moves; 4 where the instruction
/// is neither.
pub open spec fn spec_access_width(htinst: u64) -> u64 {
    let opcode = htinst & 0x7f;
    let funct3 = (htinst >> 12) & 0x7;
    if opcode == 0x03 && (funct3 == 0 || funct3 == 4) {
        1
    } else if opcode == 0x03 && (funct3 == 1 || funct3 == 5) {
        2
    } else if opcode == 0x03 && (funct3 == 2 || funct3 == 6) {
        4
    } else if opcode == 0x03 && funct3 == 3 {
        8
    } else if opcode == 0x23 && funct3 == 0 {
        1
    } else if opcode == 0x23 && funct3 == 1 {
        2
    } else if opcode == 0x23 && funct3 == 2 {
        4
    } else if opcode == 0x23 && funct3 == 3 {
        8
    } else {
        4
    }
}

/// Length in bytes of the instruction that `htinst` stands for: 2 for a
/// compressed instruction, which has bit 1 clear, else 4.
pub open spec fn spec_inst_len(htinst: u64) -> u64 {
    if htinst & 0x2 == 0 {
        2
    } else {
        4
    }
}

/// Destination register of the load in `htinst`.
pub open spec fn spec_rd(htinst: u64) -> u64 {
    (htinst >> 7) & 0x1f
}

/// Source register of the store in `htinst`.
pub open spec fn spec_rs2(htinst: u64) -> u64 {
    (htinst >> 20) & 0x1f
}

/// The guest-physical address that faulted: `htval` holds it shifted right
/// by two bits, `stval` its two low bits.
pub open spec fn spec_fault_addr(htval: u64, stval: u64) -> u64 {
    (htval << 2) | (stval & 0x3)
}

/// Serving the trap that `info` describes. An environment call runs the
/// SBI call and steps over the `ecall`; a guest-page fault is a device
/// access, which is emulated and stepped over. Where a fault stops the
/// trap, `sepc` stays where it was.
pub open spec fn spec_handle_trap(vcpu: VCpu, m: MachineView, info: TrapInfo) -> TrapOutcome {
    if info.scause == CAUSE_VS_ECALL {
        let out = spec_sbi_call(vcpu, m.console);
        TrapOutcome {
            vcpu: if out.fault is None {
                VCpu { sepc: info.sepc.wrapping_add(4), ..out.vcpu }
            } else {
                out.vcpu
            },
            machine: MachineView { console: out.console, ..m },
            line: out.line,
            fault: out.fault,
        }
    } else if info.scause == CAUSE_LOAD_GUEST_PAGE_FAULT || info.scause
        == CAUSE_STORE_GUEST_PAGE_FAULT {
        let guest_addr = spec_fault_addr(info.htval, info.stval);
        let width = spec_access_width(info.htinst);
        let resumed = info.sepc.wrapping_add(spec_inst_len(info.htinst));
        if info.htinst == 0 {
            TrapOutcome { vcpu, machine: m, line: None, fault: Some(Fault::MissingInstruction) }
        } else if info.scause == CAUSE_STORE_GUEST_PAGE_FAULT {
            let out = spec_mmio_write(
                m,
                guest_addr,
                vcpu.spec_gpr(spec_rs2(info.htinst) as int),
                width,
            );
            TrapOutcome {
                vcpu: if out.fault is None {
                    VCpu { sepc: resumed, ..vcpu }
                } else {
                    vcpu
                },
                machine: out.machine,
                line: None,
                fault: out.fault,
            }
        } else {
            match spec_mmio_read(m, guest_addr, width) {
                Ok(value) => TrapOutcome {
                    vcpu: VCpu {
                        sepc: resumed,
                        ..vcpu.spec_with_gpr(spec_rd(info.htinst) as int, value)
                    },
                    machine: m,
                    line: None,
                    fault: None,
                },
                Err(fault) => TrapOutcome { vcpu, machine: m, line: None, fault: Some(fault) },
            }
        }
    } else {
        TrapOutcome { vcpu, machine: m, line: None, fault: Some(Fault::UnhandledTrap) }
    }
}

/// The name of the trap cause `scause`, for the causes that have one.
pub open spec fn spec_cause_name(scause: u64) -> Option<Seq<char>> {
    if scause == 0 {
        Some("instruction address misaligned"@)
    } else if scause == 1 {
        Some("instruction access fault"@)
    } else if scause == 2 {
        Some("illegal instruction"@)
    } else if scause == 3 {
        Some("breakpoint"@)
    } else if scause == 4 {
        Some("load address misaligned"@)
    } else if scause == 5 {
        Some("load access fault"@)
    } else if scause == 6 {
        Some("store/AMO address misaligned"@)
    } else if scause == 7 {
        Some("store/AMO access fault"@)
    } else if scause == 8 {
        Some("environment call from U/VU-mode"@)
    } else if scause == 9 {
        Some("environment call from HS-mode"@)
    } else if scause == 10 {
        Some("environment call from VS-mode"@)
    } else if scause == 11 {
        Some("environment call from M-mode"@)
    } else if scause == 12 {
        Some("instruction page fault"@)
    } else if scause == 13 {
        Some("load page fault"@)
    } else if scause == 15 {
        Some("store/AMO page fault"@)
    } else if scause == 20 {
        Some("instruction guest-page fault"@)
    } else if scause == 21 {
        Some("load guest-page fault"@)
    } else if scause == 22 {
        Some("virtual instruction"@)
    } else if scause == 23 {
        Some("store/AMO guest-page fault"@)
    } else if scause == 0x8000_0000_0000_0000 {
        Some("user software interrupt"@)
    } else if scause == 0x8000_0000_0000_0001 {
        Some("supervisor software interrupt"@)
    } else if scause == 0x8000_0000_0000_0002 {
        Some("hypervisor software interrupt"@)
    } else if scause == 0x8000_0000_0000_0003 {
        Some("machine software interrupt"@)
    } else if scause == 0x8000_0000_0000_0004 {
        Some("user timer interrupt"@)
    } else if scause == 0x8000_0000_0000_0005 {
        Some("supervisor timer interrupt"@)
    } else if scause == 0x8000_0000_0000_0006 {
        Some("hypervisor timer interrupt"@)
    } else if scause == 0x8000_0000_0000_0007 {
        Some("machine timer interrupt"@)
    } else if scause == 0x8000_0000_0000_0008 {
        Some("user external interrupt"@)
    } else if scause == 0x8000_0000_0000_0009 {
        Some("supervisor external interrupt"@)
    } else if scause == 0x8000_0000_0000_000a {
        Some("hypervisor external interrupt"@)
    } else if scause == 0x8000_0000_0000_000b {
        Some("machine external interrupt"@)
    } else {
        None
    }
}

/// The name of the trap cause `scause`, for the host's diagnostics. A cause
/// that has no name is unknown.
pub fn trap_cause_name(scause: u64) -> (name: Option<&'static str>)
    ensures
        match name {
            Some(text) => spec_cause_name(scause) == Some(text@),
            None => spec_cause_name(scause) is None,
        },
{
    match scause {
        0 => Some("instruction address misaligned"),
        1 => Some("instruction access fault"),
        2 => Some("illegal instruction"),
        3 => Some("breakpoint"),
        4 => Some("load address misaligned"),
        5 => Some("load access fault"),
        6 => Some("store/AMO address misaligned"),
        7 => Some("store/AMO access fault"),
        8 => Some("environment call from U/VU-mode"),
        9 => Some("environment call from HS-mode"),
        10 => Some("environment call from VS-mode"),
        11 => Some("environment call from M-mode"),
        12 => Some("instruction page fault"),
        13 => Some("load page fault"),
        15 => Some("store/AMO page fault"),
        20 => Some("instruction guest-page fault"),
        21 => Some("load guest-page fault"),
        22 => Some("virtual instruction"),
        23 => Some("store/AMO guest-page fault"),
        0x8000_0000_0000_0000 => Some("user software interrupt"),
        0x8000_0000_0000_0001 => Some("supervisor software interrupt"),
        0x8000_0000_0000_0002 => Some("hypervisor software interrupt"),
        0x8000_0000_0000_0003 => Some("machine software interrupt"),
        0x8000_0000_0000_0004 => Some("user timer interrupt"),
        0x8000_0000_0000_0005 => Some("supervisor timer interrupt"),
        0x8000_0000_0000_0006 => Some("hypervisor timer interrupt"),
        0x8000_0000_0000_0007 => Some("machine timer interrupt"),
        0x8000_0000_0000_0008 => Some("user external interrupt"),
        0x8000_0000_0000_0009 => Some("supervisor external interrupt"),
        0x8000_0000_0000_000a => Some("hypervisor external interrupt"),
        0x8000_0000_0000_000b => Some("machine external interrupt"),
        _ => None,
    }
}

/// Finds the device whose register window holds `guest_addr`.
pub fn mmio_target(guest_addr: u64) -> (target: MmioTarget)
    ensures
        target == spec_mmio_target(guest_addr),
{
    if PLIC_ADDR <= guest_addr && guest_addr < PLIC_END {
        MmioTarget::Plic(guest_addr - PLIC_ADDR)
    } else if VIRTIO_BLK_ADDR <= guest_addr && guest_addr < VIRTIO_BLK_END {
        MmioTarget::VirtioBlk(guest_addr - VIRTIO_BLK_ADDR)
    } else {
        MmioTarget::Unassigned
    }
}

/// `core::str::from_utf8`, asked only whether it accepts `bytes`: it does
/// exactly when they are well-formed UTF-8.
#[verifier::external_body]
fn is_utf8(bytes: &[u8]) -> (valid: bool)
    ensures
        valid == valid_utf8(bytes@),
{
    core::str::from_utf8(bytes).is_ok()
}

/// Builds the line the host prints for the collected bytes `buffer`.
pub fn console_line(buffer: &Vec<u8>) -> (line: Vec<u8>)
    ensures
        line@ == spec_console_line(buffer@),
{
    let mut line: Vec<u8> = Vec::new();
    line.push(0x5b);
    line.push(0x67);
    line.push(0x75);
    line.push(0x65);
    line.push(0x73);
    line.push(0x74);
    line.push(0x5d);
    line.push(0x20);
    assert(line@ =~= spec_line_prefix());
    if is_utf8(buffer.as_slice()) {
        let mut i: usize = 0;
        while i < buffer.len()
            invariant
                i <= buffer@.len(),
                line@ == spec_line_prefix() + buffer@.subrange(0, i as int),
            decreases buffer@.len() - i,
        {
            line.push(buffer[i]);
            i += 1;
            assert(line@ =~= spec_line_prefix() + buffer@.subrange(0, i as int));
        }
        assert(buffer@.subrange(0, i as int) =~= buffer@);
    } else {
        line.push(0x28);
        line.push(0x6e);
        line.push(0x6f);
        line.push(0x74);
        line.push(0x20);
        line.push(0x75);
        line.push(0x74);
        line.push(0x66);
        line.push(0x2d);
        line.push(0x38);
        line.push(0x29);
        assert(line@ =~= spec_line_prefix() + spec_not_utf8());
    }
    line
}

/// The pair of extension and function names an SBI call that is served.
pub open spec fn spec_sbi_known(eid: u64, fid: u64) -> bool {
    ||| eid == 0x00 && fid == 0
    ||| eid == 0x01 && fid == 0
    ||| eid == 0x02 && fid == 0
    ||| eid == 0x10 && (fid == 0 || fid == 3 || fid == 4 || fid == 5 || fid == 6)
}

/// Tells whether the pair of extension and function names an SBI call that
/// is served.
pub fn sbi_known(eid: u64, fid: u64) -> (known: bool)
    ensures
        known == spec_sbi_known(eid, fid),
{
    if eid == 0x10 {
        fid == 0 || fid == 3 || fid == 4 || fid == 5 || fid == 6
    } else {
        (eid == 0x00 || eid == 0x01 || eid == 0x02) && fid == 0
    }
}

/// Serves the SBI call that the guest made with `ecall`: `a7` names the
/// extension, `a6` the function, `a0` carries the argument. The result goes
/// to `a0` and `a1`. Console bytes are collected in `console` until a
/// newline completes the line, which is then returned for the host to print.
/// The call has to be one that is served.
pub fn handle_sbi_call(vcpu: &mut VCpu, console: &mut Vec<u8>) -> (r: Option<Vec<u8>>)
    requires
        spec_sbi_known(old(vcpu).a7, old(vcpu).a6),
    ensures
        ({
            let out = spec_sbi_call(*old(vcpu), old(console)@);
            &&& out.fault is None
            &&& *final(vcpu) == out.vcpu
            &&& final(console)@ == out.console
            &&& match r {
                Some(line) => out.line == Some(line@),
                None => out.line is None,
            }
        }),
{
    let eid = vcpu.a7;
    let fid = vcpu.a6;
    let mut line: Option<Vec<u8>> = None;
    if eid == 0x01 && fid == 0 {
        let ch: u8 = (vcpu.a0 & 0xff) as u8;
        if ch == 0x0a {
            line = Some(console_line(console));
            console.clear();
        } else {
            console.push(ch);
        }
    }
    if (eid == 0x10 && fid == 3) || (eid == 0x02 && fid == 0) {
        vcpu.a0 = SBI_ERR_FAILED;
    } else {
        vcpu.a0 = 0;
        vcpu.a1 = 0;
    }
    line
}

/// Tells why a guest store of `width` bytes from register `x<reg>` to
/// `guest_addr` cannot be served, if it cannot.
pub fn mmio_write_fault<const SIZE: usize>(
    vcpu: &VCpu,
    machine: &Machine<SIZE>,
    guest_addr: u64,
    reg: u64,
    width: u64,
) -> (fault: Option<Fault>)
    requires
        machine.wf(),
        reg < 32,
    ensures
        fault == spec_mmio_write(machine@, guest_addr, vcpu.spec_gpr(reg as int), width).fault,
{
    match mmio_target(guest_addr) {
        MmioTarget::Plic(_) => None,
        MmioTarget::VirtioBlk(offset) => machine.virtio_blk.write_fault(
            &machine.ram,
            machine.disk.as_slice(),
            offset,
            vcpu.gpr(reg),
            width,
        ),
        MmioTarget::Unassigned => if machine.ram.contains(guest_addr) {
            None
        } else {
            Some(Fault::UnmappedAccess)
        },
    }
}

/// Serves a guest store of `width` bytes from register `x<reg>` to
/// `guest_addr`. The store has to be one that can be served.
pub fn handle_mmio_write<const SIZE: usize>(
    vcpu: &VCpu,
    machine: &mut Machine<SIZE>,
    guest_addr: u64,
    reg: u64,
    width: u64,
)
    requires
        old(machine).wf(),
        reg < 32,
        spec_mmio_write(old(machine)@, guest_addr, vcpu.spec_gpr(reg as int), width).fault is None,
    ensures
        final(machine).wf(),
        final(machine).ram.spec_host_base() == old(machine).ram.spec_host_base(),
        final(machine)@ == spec_mmio_write(
            old(machine)@,
            guest_addr,
            vcpu.spec_gpr(reg as int),
            width,
        ).machine,
{
    let value = vcpu.gpr(reg);
    match mmio_target(guest_addr) {
        MmioTarget::Plic(offset) => {
            machine.plic.handle_write(offset, value, width);
        },
        MmioTarget::VirtioBlk(offset) => {
            machine.virtio_blk.handle_mmio_write(
                &mut machine.ram,
                &mut machine.plic,
                machine.disk.as_slice(),
                offset,
                value,
                width,
            );
        },
        MmioTarget::Unassigned => {},
    }
}

/// Tells why a guest load of `width` bytes from `guest_addr` cannot be
/// served, if it cannot.
pub fn mmio_read_fault<const SIZE: usize>(
    machine: &Machine<SIZE>,
    guest_addr: u64,
    width: u64,
) -> (fault: Option<Fault>)
    requires
        machine.wf(),
    ensures
        match spec_mmio_read(machine@, guest_addr, width) {
            Ok(_) => fault is None,
            Err(reason) => fault == Some(reason),
        },
{
    match mmio_target(guest_addr) {
        MmioTarget::Plic(_) => None,
        MmioTarget::VirtioBlk(offset) => machine.virtio_blk.read_fault(offset, width),
        MmioTarget::Unassigned => if machine.ram.contains(guest_addr) {
            None
        } else {
            Some(Fault::UnmappedAccess)
        },
    }
}

/// Serves a guest load of `width` bytes from `guest_addr` into register
/// `x<reg>`. The load has to be one that can be served.
pub fn handle_mmio_read<const SIZE: usize>(
    vcpu: &mut VCpu,
    machine: &Machine<SIZE>,
    guest_addr: u64,
    reg: u64,
    width: u64,
)
    requires
        machine.wf(),
        reg < 32,
        spec_mmio_read(machine@, guest_addr, width) is Ok,
    ensures
        *final(vcpu) == old(vcpu).spec_with_gpr(
            reg as int,
            spec_mmio_read(machine@, guest_addr, width)->Ok_0,
        ),
{
    let value = match mmio_target(guest_addr) {
        MmioTarget::Plic(offset) => machine.plic.handle_read(offset, width),
        MmioTarget::VirtioBlk(offset) => machine.virtio_blk.handle_mmio_read(
            machine.disk.as_slice(),
            offset,
            width,
        ),
        MmioTarget::Unassigned => 0,
    };
    vcpu.set_gpr(reg, value);
}

/// Bytes that the load or store in `htinst` moves.
pub fn access_width(htinst: u64) -> (width: u64)
    ensures
        width == spec_access_width(htinst),
{
    let opcode = htinst & 0x7f;
    let funct3 = (htinst >> 12) & 0x7;
    match (opcode, funct3) {
        (0x03, 0x0) | (0x03, 0x4) => 1,
        (0x03, 0x1) | (0x03, 0x5) => 2,
        (0x03, 0x2) | (0x03, 0x6) => 4,
        (0x03, 0x3) => 8,
        (0x23, 0x0) => 1,
        (0x23, 0x1) => 2,
        (0x23, 0x2) => 4,
        (0x23, 0x3) => 8,
        _ => 4,
    }
}

/// The register that the load or store in `htinst` names: the destination
/// of a load, the source of a store.
fn trap_register(info: &TrapInfo) -> (reg: u64)
    ensures
        reg < 32,
        reg == if info.scause == CAUSE_STORE_GUEST_PAGE_FAULT {
            spec_rs2(info.htinst)
        } else {
            spec_rd(info.htinst)
        },
{
    let htinst = info.htinst;
    if info.scause == CAUSE_STORE_GUEST_PAGE_FAULT {
        let rs2 = (htinst >> 20) & 0x1f;
        assert(rs2 < 32) by (bit_vector)
            requires
                rs2 == (htinst >> 20) & 0x1f,
        ;
        rs2
    } else {
        let rd = (htinst >> 7) & 0x1f;
        assert(rd < 32) by (bit_vector)
            requires
                rd == (htinst >> 7) & 0x1f,
        ;
        rd
    }
}

/// Something that the host notes on its console while the guest goes on.
#[derive(Clone, Copy, Debug, PartialEq, Eq, Structural)]
pub enum Notice {
    /// The guest set its timer, which is accepted and has no effect.
    SetTimerIgnored,
    /// A load from a place in the PLIC's window that holds no known register.
    UnknownPlicRead,
    /// A store to a place in the PLIC's window that holds no known register.
    UnknownPlicWrite,
    /// A load from guest RAM that faulted.
    RamRead,
    /// A store to guest RAM that faulted.
    RamWrite,
}

/// What the host notes of the trap that `info` describes, for the traps
/// that are served.
pub open spec fn spec_trap_notice(vcpu: VCpu, m: MachineView, info: TrapInfo) -> Option<Notice> {
    let store = info.scause == CAUSE_STORE_GUEST_PAGE_FAULT;
    let width = spec_access_width(info.htinst);
    let guest_addr = spec_fault_addr(info.htval, info.stval);
    if spec_handle_trap(vcpu, m, info).fault is Some {
        None
    } else if info.scause == CAUSE_VS_ECALL {
        if vcpu.a7 == 0 && vcpu.a6 == 0 {
            Some(Notice::SetTimerIgnored)
        } else {
            None
        }
    } else {
        match spec_mmio_target(guest_addr) {
            MmioTarget::Plic(offset) => if store && !is_known_write(offset, width) {
                Some(Notice::UnknownPlicWrite)
            } else if !store && !is_known_read(offset, width) {
                Some(Notice::UnknownPlicRead)
            } else {
                None
            },
            MmioTarget::VirtioBlk(_) => None,
            MmioTarget::Unassigned => if store {
                Some(Notice::RamWrite)
            } else {
                Some(Notice::RamRead)
            },
        }
    }
}

/// Tells what the host notes of the trap that `info` describes, if
/// anything. The trap has to be one that can be served.
pub fn trap_notice<const SIZE: usize>(
    vcpu: &VCpu,
    machine: &Machine<SIZE>,
    info: &TrapInfo,
) -> (notice: Option<Notice>)
    requires
        machine.wf(),
        spec_handle_trap(*vcpu, machine@, *info).fault is None,
    ensures
        notice == spec_trap_notice(*vcpu, machine@, *info),
{
    if info.scause == CAUSE_VS_ECALL {
        if vcpu.a7 == 0 && vcpu.a6 == 0 {
            Some(Notice::SetTimerIgnored)
        } else {
            None
        }
    } else {
        let store = info.scause == CAUSE_STORE_GUEST_PAGE_FAULT;
        let width = access_width(info.htinst);
        let guest_addr = (info.htval << 2) | (info.stval & 0x3);
        match mmio_target(guest_addr) {
            MmioTarget::Plic(offset) => if store && !knows_write(offset, width) {
                Some(Notice::UnknownPlicWrite)
            } else if !store && !knows_read(offset, width) {
                Some(Notice::UnknownPlicRead)
            } else {
                None
            },
            MmioTarget::VirtioBlk(_) => None,
            MmioTarget::Unassigned => if store {
                Some(Notice::RamWrite)
            } else {
                Some(Notice::RamRead)
            },
        }
    }
}

/// Tells why the trap that `info` describes cannot be served, if it cannot:
/// it is neither an environment call from VS-mode nor a guest-page fault, or
/// the call or the device access is one that cannot be served. The caller
/// stops the guest on such a trap.
pub fn trap_fault<const SIZE: usize>(
    vcpu: &VCpu,
    machine: &Machine<SIZE>,
    info: &TrapInfo,
) -> (fault: Option<Fault>)
    requires
        machine.wf(),
    ensures
        fault == spec_handle_trap(*vcpu, machine@, *info).fault,
{
    if info.scause == CAUSE_VS_ECALL {
        if sbi_known(vcpu.a7, vcpu.a6) {
            None
        } else {
            Some(Fault::UnknownSbiCall)
        }
    } else if info.scause == CAUSE_LOAD_GUEST_PAGE_FAULT || info.scause
        == CAUSE_STORE_GUEST_PAGE_FAULT {
        if info.htinst == 0 {
            return Some(Fault::MissingInstruction);
        }
        let guest_addr = (info.htval << 2) | (info.stval & 0x3);
        let width = access_width(info.htinst);
        if info.scause == CAUSE_STORE_GUEST_PAGE_FAULT {
            mmio_write_fault(vcpu, machine, guest_addr, trap_register(info), width)
        } else {
            mmio_read_fault(machine, guest_addr, width)
        }
    } else {
        Some(Fault::UnhandledTrap)
    }
}

/// Serves the trap that `info` describes and sets `sepc` to where the guest
/// goes on. Returns the console line that the trap completed, if it did.
/// The trap has to be one that can be served: an environment call from
/// VS-mode or a guest-page fault, with a call or a device access that can
/// be served.
pub fn handle_trap<const SIZE: usize>(
    vcpu: &mut VCpu,
    machine: &mut Machine<SIZE>,
    info: &TrapInfo,
) -> (r: Option<Vec<u8>>)
    requires
        old(machine).wf(),
        spec_handle_trap(*old(vcpu), old(machine)@, *info).fault is None,
    ensures
        final(machine).wf(),
        final(machine).ram.spec_host_base() == old(machine).ram.spec_host_base(),
        ({
            let out = spec_handle_trap(*old(vcpu), old(machine)@, *info);
            &&& *final(vcpu) == out.vcpu
            &&& final(machine)@ == out.machine
            &&& match r {
                Some(line) => out.line == Some(line@),
                None => out.line is None,
            }
        }),
{
    if info.scause == CAUSE_VS_ECALL {
        let line = handle_sbi_call(vcpu, &mut machine.console);
        vcpu.sepc = info.sepc.wrapping_add(4);
        line
    } else {
        let htinst = info.htinst;
        let guest_addr = (info.htval << 2) | (info.stval & 0x3);
        let width = access_width(htinst);
        let reg = trap_register(info);
        if info.scause == CAUSE_STORE_GUEST_PAGE_FAULT {
            handle_mmio_write(vcpu, machine, guest_addr, reg, width);
        } else {
            handle_mmio_read(vcpu, machine, guest_addr, reg, width);
        }
        let inst_len: u64 = if htinst & 0x2 == 0 {
            2
        } else {
            4
        };
        vcpu.sepc = info.sepc.wrapping_add(inst_len);
        None
    }
}

/// A guest `sw` to an address in the register window of the block device
/// reaches the device once: as a store of the source register's value, 4
/// bytes wide, to the register at the address's offset in the window.
/// Where the device serves the store, the guest goes on behind the `sw`.
pub proof fn lemma_store_word_reaches_virtio(vcpu: VCpu, m: MachineView, info: TrapInfo)
    requires
        info.scause == CAUSE_STORE_GUEST_PAGE_FAULT,
        info.htinst & 0x7f == 0x23,
        (info.htinst >> 12) & 0x7 == 0x2,
        VIRTIO_BLK_ADDR <= spec_fault_addr(info.htval, info.stval) < VIRTIO_BLK_END,
    ensures
        ({
            let offset = (spec_fault_addr(info.htval, info.stval) - VIRTIO_BLK_ADDR) as u64;
            let value = vcpu.spec_gpr(spec_rs2(info.htinst) as int);
            let served = m.virtio_blk.spec_write(m.mem, m.disk, offset, value);
            let out = spec_handle_trap(vcpu, m, info);
            &&& out.machine.virtio_blk == served.dev
            &&& out.machine.mem == served.mem
            &&& out.machine.disk == m.disk
            &&& out.machine.console == m.console
            &&& out.fault == served.fault
            &&& out.line is None
            &&& served.fault is None ==> out.vcpu == (VCpu {
                sepc: info.sepc.wrapping_add(spec_inst_len(info.htinst)),
                ..vcpu
            })
            &&& served.fault is Some ==> out.vcpu == vcpu
        }),
{
    let htinst = info.htinst;
    assert(htinst != 0) by (bit_vector)
        requires
            htinst & 0x7f == 0x23,
    ;
    assert(spec_access_width(htinst) == 4);
}

/// A guest `lw` from an address in the register window of the block device
/// puts the value of the register at the address's offset in the window
/// into the destination register, and the guest goes on behind the `lw`.
pub proof fn lemma_load_word_reaches_virtio(vcpu: VCpu, m: MachineView, info: TrapInfo)
    requires
        info.scause == CAUSE_LOAD_GUEST_PAGE_FAULT,
        info.htinst & 0x7f == 0x03,
        (info.htinst >> 12) & 0x7 == 0x2,
        VIRTIO_BLK_ADDR <= spec_fault_addr(info.htval, info.stval) < VIRTIO_BLK_END,
    ensures
        ({
            let offset = (spec_fault_addr(info.htval, info.stval) - VIRTIO_BLK_ADDR) as u64;
            let out = spec_handle_trap(vcpu, m, info);
            &&& out.machine == m
            &&& out.line is None
            &&& match m.virtio_blk.spec_read(offset, m.disk.len()) {
                Ok(value) => out.fault is None && out.vcpu == (VCpu {
                    sepc: info.sepc.wrapping_add(spec_inst_len(info.htinst)),
                    ..vcpu.spec_with_gpr(spec_rd(info.htinst) as int, value)
                }),
                Err(fault) => out.fault == Some(fault) && out.vcpu == vcpu,
            }
        }),
{
    let htinst = info.htinst;
    assert(htinst != 0) by (bit_vector)
        requires
            htinst & 0x7f == 0x03,
    ;
    assert(spec_access_width(htinst) == 4);
}

/// Bytes without a newline among them complete no line; the newline that
/// follows them completes exactly one, which holds what was collected
/// before and these bytes, and the console starts afresh.
pub proof fn lemma_newline_completes_one_line(console: Seq<u8>, text: Seq<u8>)
    requires
        forall|i: int| 0 <= i < text.len() ==> text[i] != 0x0a,
    ensures
        spec_putchars(console, text).lines.len() == 0,
        spec_putchars(console, text).console == console + text,
        spec_putchars(console, text.push(0x0a)).lines == seq![spec_console_line(console + text)],
        spec_putchars(console, text.push(0x0a)).console.len() == 0,
    decreases text.len(),
{
    let line = text.push(0x0a);
    if text.len() == 0 {
        assert(console + text =~= console);
        let after = line.subrange(1, line.len() as int);
        assert(after.len() == 0);
        let first = spec_putchar(console, line[0]);
        let rest = spec_putchars(first.console, after);
        assert(rest.lines.len() == 0 && rest.console == first.console);
        assert(first.lines + rest.lines =~= seq![spec_console_line(console)]);
    } else {
        let rest = text.subrange(1, text.len() as int);
        lemma_newline_completes_one_line(console.push(text[0]), rest);
        assert(console.push(text[0]) + rest =~= console + text);
        assert(line.subrange(1, line.len() as int) =~= rest.push(0x0a));
        assert(spec_putchars(console, line).lines =~= seq![spec_console_line(console + text)]);
    }
}

} // verus!
