//! The registers of the guest's one hart.

use crate::allocator::{round_up_to_pages, PageAllocator};
use crate::guest_page_table::{GuestPageTable, HGATP_MODE_SV48X4};
use vstd::prelude::*;

verus! {

/// `hstatus` for a 64-bit guest that `sret` enters in virtualised mode:
/// VSXL is 2 and SPV is set.
pub const HSTATUS_GUEST: u64 = 0x2_0000_0080;

/// `sstatus` with SPP set, so that `sret` enters the guest in supervisor mode.
pub const SSTATUS_GUEST: u64 = 0x100;

/// Bytes of the host stack that the trap path runs on.
pub const HOST_STACK_SIZE: usize = 0x8_0000;

/// Guest register state as the trap path saves and restores it.
#[derive(Clone, Copy, Debug, PartialEq, Eq, Structural)]
pub struct VCpu {
    pub host_sp: u64,
    pub hstatus: u64,
    pub hgatp: u64,
    pub sstatus: u64,
    pub sepc: u64,
    pub ra: u64,
    pub sp: u64,
    pub gp: u64,
    pub tp: u64,
    pub t0: u64,
    pub t1: u64,
    pub t2: u64,
    pub s0: u64,
    pub s1: u64,
    pub a0: u64,
    pub a1: u64,
    pub a2: u64,
    pub a3: u64,
    pub a4: u64,
    pub a5: u64,
    pub a6: u64,
    pub a7: u64,
    pub s2: u64,
    pub s3: u64,
    pub s4: u64,
    pub s5: u64,
    pub s6: u64,
    pub s7: u64,
    pub s8: u64,
    pub s9: u64,
    pub s10: u64,
    pub s11: u64,
    pub t3: u64,
    pub t4: u64,
    pub t5: u64,
    pub t6: u64,
}

/// The registers with every field 0.
pub open spec fn spec_zeroed() -> VCpu {
    VCpu {
        host_sp: 0,
        hstatus: 0,
        hgatp: 0,
        sstatus: 0,
        sepc: 0,
        ra: 0,
        sp: 0,
        gp: 0,
        tp: 0,
        t0: 0,
        t1: 0,
        t2: 0,
        s0: 0,
        s1: 0,
        a0: 0,
        a1: 0,
        a2: 0,
        a3: 0,
        a4: 0,
        a5: 0,
        a6: 0,
        a7: 0,
        s2: 0,
        s3: 0,
        s4: 0,
        s5: 0,
        s6: 0,
        s7: 0,
        s8: 0,
        s9: 0,
        s10: 0,
        s11: 0,
        t3: 0,
        t4: 0,
        t5: 0,
        t6: 0,
    }
}

impl Default for VCpu {
    /// The registers with every field 0.
    fn default() -> (vcpu: Self)
        ensures
            vcpu == spec_zeroed(),
    {
        VCpu {
            host_sp: 0,
            hstatus: 0,
            hgatp: 0,
            sstatus: 0,
            sepc: 0,
            ra: 0,
            sp: 0,
            gp: 0,
            tp: 0,
            t0: 0,
            t1: 0,
            t2: 0,
            s0: 0,
            s1: 0,
            a0: 0,
            a1: 0,
            a2: 0,
            a3: 0,
            a4: 0,
            a5: 0,
            a6: 0,
            a7: 0,
            s2: 0,
            s3: 0,
            s4: 0,
            s5: 0,
            s6: 0,
            s7: 0,
            s8: 0,
            s9: 0,
            s10: 0,
            s11: 0,
            t3: 0,
            t4: 0,
            t5: 0,
            t6: 0,
        }
    }
}

impl VCpu {
    /// The registers of a guest that has not run yet: it starts at
    /// `guest_entry` under the page table selected by `hgatp`, traps run on a
    /// stack that ends at `host_sp`, and every general-purpose register is 0.
    pub open spec fn spec_new(hgatp: u64, guest_entry: u64, host_sp: u64) -> VCpu {
        VCpu {
            host_sp,
            hstatus: HSTATUS_GUEST,
            hgatp,
            sstatus: SSTATUS_GUEST,
            sepc: guest_entry,
            ra: 0,
            sp: 0,
            gp: 0,
            tp: 0,
            t0: 0,
            t1: 0,
            t2: 0,
            s0: 0,
            s1: 0,
            a0: 0,
            a1: 0,
            a2: 0,
            a3: 0,
            a4: 0,
            a5: 0,
            a6: 0,
            a7: 0,
            s2: 0,
            s3: 0,
            s4: 0,
            s5: 0,
            s6: 0,
            s7: 0,
            s8: 0,
            s9: 0,
            s10: 0,
            s11: 0,
            t3: 0,
            t4: 0,
            t5: 0,
            t6: 0,
        }
    }

    /// The registers of a guest that starts at `guest_entry` under `table`.
    /// The host stack for the trap path is taken from `alloc`; without room
    /// for it there is no guest.
    pub fn new(table: &GuestPageTable, guest_entry: u64, alloc: &mut PageAllocator) -> (r: Option<
        Self,
    >)
        requires
            old(alloc).wf(),
        ensures
            final(alloc).wf(),
            final(alloc).spec_end() == old(alloc).spec_end(),
            old(alloc).spec_free() >= HOST_STACK_SIZE ==> {
                &&& final(alloc).spec_next() == old(alloc).spec_next() + HOST_STACK_SIZE
                &&& r == Some(
                    Self::spec_new(
                        HGATP_MODE_SV48X4 | (table.spec_root() >> 12),
                        guest_entry,
                        (old(alloc).spec_next() + HOST_STACK_SIZE) as u64,
                    ),
                )
            },
            old(alloc).spec_free() < HOST_STACK_SIZE ==> r is None && final(alloc).spec_next()
                == old(alloc).spec_next(),
    {
        assert(round_up_to_pages(HOST_STACK_SIZE as nat) == HOST_STACK_SIZE);
        let stack = match alloc.alloc_pages(HOST_STACK_SIZE) {
            Some(addr) => addr,
            None => { return None; },
        };
        let host_sp = stack + HOST_STACK_SIZE as u64;
        Some(
            VCpu {
                host_sp,
                hstatus: HSTATUS_GUEST,
                hgatp: table.hgatp(),
                sstatus: SSTATUS_GUEST,
                sepc: guest_entry,
                ra: 0,
                sp: 0,
                gp: 0,
                tp: 0,
                t0: 0,
                t1: 0,
                t2: 0,
                s0: 0,
                s1: 0,
                a0: 0,
                a1: 0,
                a2: 0,
                a3: 0,
                a4: 0,
                a5: 0,
                a6: 0,
                a7: 0,
                s2: 0,
                s3: 0,
                s4: 0,
                s5: 0,
                s6: 0,
                s7: 0,
                s8: 0,
                s9: 0,
                s10: 0,
                s11: 0,
                t3: 0,
                t4: 0,
                t5: 0,
                t6: 0,
            },
        )
    }

    /// The value of general-purpose register `x<reg>`; `x0` reads as zero.
    pub open spec fn spec_gpr(self, reg: int) -> u64 {
        if reg == 1 { self.ra }
        else if reg == 2 { self.sp }
        else if reg == 3 { self.gp }
        else if reg == 4 { self.tp }
        else if reg == 5 { self.t0 }
        else if reg == 6 { self.t1 }
        else if reg == 7 { self.t2 }
        else if reg == 8 { self.s0 }
        else if reg == 9 { self.s1 }
        else if reg == 10 { self.a0 }
        else if reg == 11 { self.a1 }
        else if reg == 12 { self.a2 }
        else if reg == 13 { self.a3 }
        else if reg == 14 { self.a4 }
        else if reg == 15 { self.a5 }
        else if reg == 16 { self.a6 }
        else if reg == 17 { self.a7 }
        else if reg == 18 { self.s2 }
        else if reg == 19 { self.s3 }
        else if reg == 20 { self.s4 }
        else if reg == 21 { self.s5 }
        else if reg == 22 { self.s6 }
        else if reg == 23 { self.s7 }
        else if reg == 24 { self.s8 }
        else if reg == 25 { self.s9 }
        else if reg == 26 { self.s10 }
        else if reg == 27 { self.s11 }
        else if reg == 28 { self.t3 }
        else if reg == 29 { self.t4 }
        else if reg == 30 { self.t5 }
        else if reg == 31 { self.t6 }
        else { 0 }
    }

    /// The registers after `value` was written to `x<reg>`; a write to `x0`
    /// changes nothing.
    pub open spec fn spec_with_gpr(self, reg: int, value: u64) -> VCpu {
        if reg == 1 { VCpu { ra: value, ..self } }
        else if reg == 2 { VCpu { sp: value, ..self } }
        else if reg == 3 { VCpu { gp: value, ..self } }
        else if reg == 4 { VCpu { tp: value, ..self } }
        else if reg == 5 { VCpu { t0: value, ..self } }
        else if reg == 6 { VCpu { t1: value, ..self } }
        else if reg == 7 { VCpu { t2: value, ..self } }
        else if reg == 8 { VCpu { s0: value, ..self } }
        else if reg == 9 { VCpu { s1: value, ..self } }
        else if reg == 10 { VCpu { a0: value, ..self } }
        else if reg == 11 { VCpu { a1: value, ..self } }
        else if reg == 12 { VCpu { a2: value, ..self } }
        else if reg == 13 { VCpu { a3: value, ..self } }
        else if reg == 14 { VCpu { a4: value, ..self } }
        else if reg == 15 { VCpu { a5: value, ..self } }
        else if reg == 16 { VCpu { a6: value, ..self } }
        else if reg == 17 { VCpu { a7: value, ..self } }
        else if reg == 18 { VCpu { s2: value, ..self } }
        else if reg == 19 { VCpu { s3: value, ..self } }
        else if reg == 20 { VCpu { s4: value, ..self } }
        else if reg == 21 { VCpu { s5: value, ..self } }
        else if reg == 22 { VCpu { s6: value, ..self } }
        else if reg == 23 { VCpu { s7: value, ..self } }
        else if reg == 24 { VCpu { s8: value, ..self } }
        else if reg == 25 { VCpu { s9: value, ..self } }
        else if reg == 26 { VCpu { s10: value, ..self } }
        else if reg == 27 { VCpu { s11: value, ..self } }
        else if reg == 28 { VCpu { t3: value, ..self } }
        else if reg == 29 { VCpu { t4: value, ..self } }
        else if reg == 30 { VCpu { t5: value, ..self } }
        else if reg == 31 { VCpu { t6: value, ..self } }
        else { self }
    }

    /// Reads general-purpose register `x<reg>`.
    pub fn gpr(&self, reg: u64) -> (value: u64)
        requires
            reg < 32,
        ensures
            value == self.spec_gpr(reg as int),
    {
        match reg {
            0 => 0,
            1 => self.ra,
            2 => self.sp,
            3 => self.gp,
            4 => self.tp,
            5 => self.t0,
            6 => self.t1,
            7 => self.t2,
            8 => self.s0,
            9 => self.s1,
            10 => self.a0,
            11 => self.a1,
            12 => self.a2,
            13 => self.a3,
            14 => self.a4,
            15 => self.a5,
            16 => self.a6,
            17 => self.a7,
            18 => self.s2,
            19 => self.s3,
            20 => self.s4,
            21 => self.s5,
            22 => self.s6,
            23 => self.s7,
            24 => self.s8,
            25 => self.s9,
            26 => self.s10,
            27 => self.s11,
            28 => self.t3,
            29 => self.t4,
            30 => self.t5,
            _ => self.t6,
        }
    }

    /// Writes general-purpose register `x<reg>`; a write to `x0` is dropped.
    pub fn set_gpr(&mut self, reg: u64, value: u64)
        requires
            reg < 32,
        ensures
            *final(self) == old(self).spec_with_gpr(reg as int, value),
    {
        match reg {
            0 => {},
            1 => self.ra = value,
            2 => self.sp = value,
            3 => self.gp = value,
            4 => self.tp = value,
            5 => self.t0 = value,
            6 => self.t1 = value,
            7 => self.t2 = value,
            8 => self.s0 = value,
            9 => self.s1 = value,
            10 => self.a0 = value,
            11 => self.a1 = value,
            12 => self.a2 = value,
            13 => self.a3 = value,
            14 => self.a4 = value,
            15 => self.a5 = value,
            16 => self.a6 = value,
            17 => self.a7 = value,
            18 => self.s2 = value,
            19 => self.s3 = value,
            20 => self.s4 = value,
            21 => self.s5 = value,
            22 => self.s6 = value,
            23 => self.s7 = value,
            24 => self.s8 = value,
            25 => self.s9 = value,
            26 => self.s10 = value,
            27 => self.s11 = value,
            28 => self.t3 = value,
            29 => self.t4 = value,
            30 => self.t5 = value,
            _ => self.t6 = value,
        }
    }
}

/// A register that was written reads as the value written, `x0` reads as 0
/// whatever was written to it, and a write changes no other register.
pub proof fn lemma_gpr_after_write(vcpu: VCpu, reg: int, value: u64, other: int)
    requires
        0 <= reg < 32,
        0 <= other < 32,
    ensures
        reg != 0 ==> vcpu.spec_with_gpr(reg, value).spec_gpr(reg) == value,
        vcpu.spec_with_gpr(reg, value).spec_gpr(0) == 0,
        other != reg ==> vcpu.spec_with_gpr(reg, value).spec_gpr(other) == vcpu.spec_gpr(other),
        vcpu.spec_with_gpr(reg, value).sepc == vcpu.sepc,
        vcpu.spec_with_gpr(reg, value).host_sp == vcpu.host_sp,
        vcpu.spec_with_gpr(reg, value).hstatus == vcpu.hstatus,
        vcpu.spec_with_gpr(reg, value).sstatus == vcpu.sstatus,
        vcpu.spec_with_gpr(reg, value).hgatp == vcpu.hgatp,
{
}

} // verus!
