//! The VirtIO block device over MMIO, with its one request queue.

use crate::fault::Fault;
use crate::guest_memory::{
    le_u16, le_u32, le_u64, lemma_read_after_write, lemma_write_keeps, u16_le_bytes, u32_le_bytes,
    GuestData, GuestMemory, MemoryView,
};
use crate::plic::Plic;
use vstd::prelude::*;
use vstd::slice::slice_subrange;

verus! {

/// Bytes in one disk sector.
pub const SECTOR_SIZE: u64 = 512;

/// The largest queue size the device offers.
pub const MAX_QUEUE_SIZE: u64 = 256;

/// The interrupt line of the block device at the interrupt controller.
pub const VIRTIO_BLK_IRQ: u16 = 1;

/// Request type of a read.
pub const VIRTIO_BLK_T_IN: u32 = 0;

/// Status byte of a request that was served.
pub const VIRTIO_BLK_S_OK: u8 = 0;

/// Replaces the low 32 bits of `value` by `low`.
pub fn set_low_32(value: &mut u64, low: u64)
    ensures
        *final(value) == (*old(value) & 0xffff_ffff_0000_0000) | low,
{
    *value = (*value & 0xffff_ffff_0000_0000) | low;
}

/// Replaces the high 32 bits of `value` by the low 32 bits of `high`.
pub fn set_high_32(value: &mut u64, high: u64)
    ensures
        *final(value) == (*old(value) & 0x0000_0000_ffff_ffff) | (high << 32),
{
    *value = (*value & 0x0000_0000_ffff_ffff) | (high << 32);
}

/// One entry of the descriptor table.
#[derive(Clone, Copy, Debug, PartialEq, Eq, Structural)]
pub struct VirtqDesc {
    /// Guest-physical address of the buffer.
    pub addr: u64,
    /// Length of the buffer in bytes.
    pub len: u32,
    pub flags: u16,
    /// Index of the descriptor that continues the chain.
    pub next: u16,
}

/// Header of a block request.
#[derive(Clone, Copy, Debug, PartialEq, Eq, Structural)]
pub struct VirtioBlkReq {
    pub req_type: u32,
    pub reserved: u32,
    pub sector: u64,
}

impl GuestData for VirtqDesc {
    open spec fn width() -> nat {
        16
    }

    open spec fn from_bytes(bytes: Seq<u8>) -> VirtqDesc {
        VirtqDesc {
            addr: le_u64(bytes.subrange(0, 8)),
            len: le_u32(bytes.subrange(8, 12)),
            flags: le_u16(bytes.subrange(12, 14)),
            next: le_u16(bytes.subrange(14, 16)),
        }
    }

    fn byte_width() -> (n: usize) {
        16
    }

    fn decode(bytes: &[u8]) -> (value: VirtqDesc) {
        VirtqDesc {
            addr: u64::decode(slice_subrange(bytes, 0, 8)),
            len: u32::decode(slice_subrange(bytes, 8, 12)),
            flags: u16::decode(slice_subrange(bytes, 12, 14)),
            next: u16::decode(slice_subrange(bytes, 14, 16)),
        }
    }
}

impl GuestData for VirtioBlkReq {
    open spec fn width() -> nat {
        16
    }

    open spec fn from_bytes(bytes: Seq<u8>) -> VirtioBlkReq {
        VirtioBlkReq {
            req_type: le_u32(bytes.subrange(0, 4)),
            reserved: le_u32(bytes.subrange(4, 8)),
            sector: le_u64(bytes.subrange(8, 16)),
        }
    }

    fn byte_width() -> (n: usize) {
        16
    }

    fn decode(bytes: &[u8]) -> (value: VirtioBlkReq) {
        VirtioBlkReq {
            req_type: u32::decode(slice_subrange(bytes, 0, 4)),
            reserved: u32::decode(slice_subrange(bytes, 4, 8)),
            sector: u64::decode(slice_subrange(bytes, 8, 16)),
        }
    }
}

/// Register state of the VirtIO-MMIO block device.
#[derive(Clone, Copy, Debug, PartialEq, Eq, Structural)]
pub struct VirtioBlk {
    pub status: u32,
    pub device_features_sel: u32,
    pub driver_features_sel: u32,
    /// Feature bits 31-0 that the driver accepted.
    pub driver_features_low: u32,
    /// Feature bits 63-32 that the driver accepted.
    pub driver_features_high: u32,
    pub requestq_ready: u32,
    pub requestq_size: u32,
    pub requestq_desc_addr: u64,
    pub requestq_driver_addr: u64,
    pub requestq_device_addr: u64,
    /// Number of requests taken from the available ring so far, modulo 2^16.
    /// It is also the index that the device publishes in the used ring.
    pub requestq_next_avail: u16,
    pub irq_status: u32,
}

/// A request taken from the available ring: the head of its descriptor chain
/// and what its three descriptors say.
#[derive(Clone, Copy, Debug, PartialEq, Eq, Structural)]
pub struct BlockRequest {
    /// Index of the first descriptor of the chain.
    pub head: u16,
    pub req_type: u32,
    pub sector: u64,
    /// Guest-physical address of the data buffer.
    pub data_addr: u64,
    /// Length of the data buffer in bytes.
    pub data_len: u32,
    /// Guest-physical address of the status byte.
    pub status_addr: u64,
}

/// What a store to a register of the device comes to.
pub struct QueueOutcome {
    pub dev: VirtioBlk,
    pub mem: MemoryView,
    /// Number of requests that were served and published in the used ring.
    pub completed: nat,
    /// Why the store cannot be served, if it cannot. Device and memory are
    /// then as they were.
    pub fault: Option<Fault>,
}

/// Device and guest memory after requests were served.
pub struct Served {
    pub dev: VirtioBlk,
    pub mem: MemoryView,
}

/// Number of requests between the device's position `next` and the
/// driver's index `avail_idx`, both counted modulo 2^16.
pub open spec fn pending_requests(avail_idx: u16, next: u16) -> nat {
    ((avail_idx + 0x10000 - next) % 0x10000) as nat
}

/// The ring index that follows `i`.
pub open spec fn next_index(i: u16) -> u16 {
    if i == 0xffff {
        0
    } else {
        (i + 1) as u16
    }
}

/// Number of bytes a read of `data_len` bytes at `sector` transfers from a
/// disk of `disk_len` bytes: the buffer's length, cut at the end of the disk.
pub open spec fn transfer_len(disk_len: nat, sector: u64, data_len: u32) -> nat {
    if sector * 512 <= disk_len {
        if data_len <= disk_len - sector * 512 {
            data_len as nat
        } else {
            (disk_len - sector * 512) as nat
        }
    } else {
        0
    }
}

/// The bytes that a read of `data_len` bytes at `sector` transfers.
pub open spec fn transfer_data(disk: Seq<u8>, sector: u64, data_len: u32) -> Seq<u8> {
    let n = transfer_len(disk.len(), sector, data_len);
    if n == 0 {
        Seq::empty()
    } else {
        disk.subrange(sector * 512, sector * 512 + n)
    }
}

/// The used-ring element for a chain that starts at `head` and received
/// `written` bytes.
pub open spec fn used_elem_bytes(head: u16, written: u32) -> Seq<u8> {
    u32_le_bytes(head as u32) + u32_le_bytes(written)
}

/// Number of whole sectors on a disk of `disk_len` bytes.
pub open spec fn disk_capacity(disk_len: nat) -> u64 {
    (disk_len / 512) as u64
}

impl VirtioBlk {
    /// What a 4-byte load from the register at `offset` returns, for a disk
    /// of `disk_len` bytes.
    pub open spec fn spec_read(self, offset: u64, disk_len: nat) -> Result<u64, Fault> {
        if offset == 0x00 {
            Ok(0x74726976)
        } else if offset == 0x04 {
            Ok(2)
        } else if offset == 0x08 {
            Ok(2)
        } else if offset == 0x0c {
            Ok(0x554d4551)
        } else if offset == 0x10 && self.device_features_sel == 0 {
            Ok(0)
        } else if offset == 0x10 && self.device_features_sel == 1 {
            Ok(1)
        } else if offset == 0x20 && self.driver_features_sel == 0 {
            Ok(self.driver_features_low as u64)
        } else if offset == 0x20 && self.driver_features_sel == 1 {
            Ok(self.driver_features_high as u64)
        } else if offset == 0x34 {
            Ok(MAX_QUEUE_SIZE)
        } else if offset == 0x38 {
            Ok(self.requestq_size as u64)
        } else if offset == 0x44 {
            Ok(self.requestq_ready as u64)
        } else if offset == 0x60 {
            Ok(self.irq_status as u64)
        } else if offset == 0x70 {
            Ok(self.status as u64)
        } else if offset == 0x80 {
            Ok(self.requestq_desc_addr & 0xffff_ffff)
        } else if offset == 0x84 {
            Ok(self.requestq_desc_addr >> 32)
        } else if offset == 0x90 {
            Ok(self.requestq_driver_addr & 0xffff_ffff)
        } else if offset == 0x94 {
            Ok(self.requestq_driver_addr >> 32)
        } else if offset == 0xa0 {
            Ok(self.requestq_device_addr & 0xffff_ffff)
        } else if offset == 0xa4 {
            Ok(self.requestq_device_addr >> 32)
        } else if offset == 0xfc {
            Ok(0)
        } else if offset == 0x100 {
            Ok(disk_capacity(disk_len) & 0xffff_ffff)
        } else if offset == 0x104 {
            Ok(disk_capacity(disk_len) >> 32)
        } else {
            Err(Fault::UnknownVirtioRead)
        }
    }

    /// The device after the 32-bit value `v` was stored to the register at
    /// `offset`, for every writable register but queue notify.
    pub open spec fn spec_write_register(self, offset: u64, v: u32) -> Result<VirtioBlk, Fault> {
        if offset == 0x70 {
            Ok(VirtioBlk { status: v, ..self })
        } else if offset == 0x14 {
            Ok(VirtioBlk { device_features_sel: v, ..self })
        } else if offset == 0x20 {
            if self.driver_features_sel == 0 {
                Ok(VirtioBlk { driver_features_low: v, ..self })
            } else if self.driver_features_sel == 1 {
                Ok(VirtioBlk { driver_features_high: v, ..self })
            } else {
                Ok(self)
            }
        } else if offset == 0x24 {
            Ok(VirtioBlk { driver_features_sel: v, ..self })
        } else if offset == 0x30 {
            if v == 0 {
                Ok(self)
            } else {
                Err(Fault::UnsupportedQueue)
            }
        } else if offset == 0x38 {
            Ok(VirtioBlk { requestq_size: v, ..self })
        } else if offset == 0x44 {
            Ok(VirtioBlk { requestq_ready: v, ..self })
        } else if offset == 0x60 {
            Ok(VirtioBlk { irq_status: self.irq_status & !v, ..self })
        } else if offset == 0x64 {
            Ok(self)
        } else if offset == 0x80 {
            Ok(
                VirtioBlk {
                    requestq_desc_addr: (self.requestq_desc_addr & 0xffff_ffff_0000_0000) | (
                    v as u64),
                    ..self
                },
            )
        } else if offset == 0x84 {
            Ok(
                VirtioBlk {
                    requestq_desc_addr: (self.requestq_desc_addr & 0x0000_0000_ffff_ffff) | ((
                    v as u64) << 32),
                    ..self
                },
            )
        } else if offset == 0x90 {
            Ok(
                VirtioBlk {
                    requestq_driver_addr: (self.requestq_driver_addr & 0xffff_ffff_0000_0000) | (
                    v as u64),
                    ..self
                },
            )
        } else if offset == 0x94 {
            Ok(
                VirtioBlk {
                    requestq_driver_addr: (self.requestq_driver_addr & 0x0000_0000_ffff_ffff) | ((
                    v as u64) << 32),
                    ..self
                },
            )
        } else if offset == 0xa0 {
            Ok(
                VirtioBlk {
                    requestq_device_addr: (self.requestq_device_addr & 0xffff_ffff_0000_0000) | (
                    v as u64),
                    ..self
                },
            )
        } else if offset == 0xa4 {
            Ok(
                VirtioBlk {
                    requestq_device_addr: (self.requestq_device_addr & 0x0000_0000_ffff_ffff) | ((
                    v as u64) << 32),
                    ..self
                },
            )
        } else {
            Err(Fault::UnknownVirtioWrite)
        }
    }

    /// A device that the driver has not touched yet.
    pub fn new() -> (dev: Self)
        ensures
            dev == (VirtioBlk {
                status: 0,
                device_features_sel: 0,
                driver_features_sel: 0,
                driver_features_low: 0,
                driver_features_high: 0,
                requestq_ready: 0,
                requestq_size: 0,
                requestq_desc_addr: 0,
                requestq_driver_addr: 0,
                requestq_device_addr: 0,
                requestq_next_avail: 0,
                irq_status: 0,
            }),
    {
        Self {
            status: 0,
            device_features_sel: 0,
            driver_features_sel: 0,
            driver_features_low: 0,
            driver_features_high: 0,
            requestq_ready: 0,
            requestq_size: 0,
            requestq_desc_addr: 0,
            requestq_driver_addr: 0,
            requestq_device_addr: 0,
            requestq_next_avail: 0,
            irq_status: 0,
        }
    }

    /// Why a guest load of `width` bytes from the register at `offset` cannot
    /// be served: the access is not 4 bytes wide, or no register can be read
    /// there.
    pub open spec fn spec_read_fault(self, offset: u64, width: u64) -> Option<Fault> {
        if width != 4 {
            Some(Fault::BadAccessWidth)
        } else {
            match self.spec_read(offset, 0) {
                Ok(_) => None,
                Err(fault) => Some(fault),
            }
        }
    }

    /// Tells why a guest load of `width` bytes from the register at `offset`
    /// cannot be served, if it cannot.
    pub fn read_fault(&self, offset: u64, width: u64) -> (fault: Option<Fault>)
        ensures
            fault == self.spec_read_fault(offset, width),
    {
        if width != 4 {
            return Some(Fault::BadAccessWidth);
        }
        match self.read_register(0, offset) {
            Ok(_) => None,
            Err(fault) => Some(fault),
        }
    }

    /// Serves a guest load of `width` bytes from the register at `offset`.
    /// `disk` is the disk image the device exports. The access has to be 4
    /// bytes wide and the register has to be one that can be read.
    pub fn handle_mmio_read(&self, disk: &[u8], offset: u64, width: u64) -> (value: u64)
        requires
            self.spec_read_fault(offset, width) is None,
        ensures
            value == self.spec_read(offset, disk@.len())->Ok_0,
    {
        match self.read_register(disk.len(), offset) {
            Ok(value) => value,
            Err(_) => 0,
        }
    }

    /// Reads the register at `offset`, for a disk of `disk_len` bytes.
    fn read_register(&self, disk_len: usize, offset: u64) -> (r: Result<u64, Fault>)
        ensures
            r == self.spec_read(offset, disk_len as nat),
    {
        let capacity: u64 = (disk_len / 512) as u64;
        match offset {
            0x00 => Ok(0x74726976),
            0x04 => Ok(0x2),
            0x08 => Ok(0x2),
            0x0c => Ok(0x554d4551),
            0x10 => {
                if self.device_features_sel == 0 {
                    Ok(0)
                } else if self.device_features_sel == 1 {
                    Ok(0x0000_0001)
                } else {
                    Err(Fault::UnknownVirtioRead)
                }
            },
            0x20 => {
                if self.driver_features_sel == 0 {
                    Ok(self.driver_features_low as u64)
                } else if self.driver_features_sel == 1 {
                    Ok(self.driver_features_high as u64)
                } else {
                    Err(Fault::UnknownVirtioRead)
                }
            },
            0x34 => Ok(MAX_QUEUE_SIZE),
            0x38 => Ok(self.requestq_size as u64),
            0x44 => Ok(self.requestq_ready as u64),
            0x60 => Ok(self.irq_status as u64),
            0x70 => Ok(self.status as u64),
            0x80 => Ok(self.requestq_desc_addr & 0xffff_ffff),
            0x84 => Ok(self.requestq_desc_addr >> 32),
            0x90 => Ok(self.requestq_driver_addr & 0xffff_ffff),
            0x94 => Ok(self.requestq_driver_addr >> 32),
            0xa0 => Ok(self.requestq_device_addr & 0xffff_ffff),
            0xa4 => Ok(self.requestq_device_addr >> 32),
            0xfc => Ok(0x0),
            0x100 => Ok(capacity & 0xffff_ffff),
            0x104 => Ok(capacity >> 32),
            _ => Err(Fault::UnknownVirtioRead),
        }
    }

    /// Stores the 32-bit value `v` to the register at `offset`, for every
    /// writable register but queue notify.
    fn write_register(&mut self, offset: u64, v: u32) -> (r: Result<(), Fault>)
        ensures
            match old(self).spec_write_register(offset, v) {
                Ok(dev) => r == Ok::<(), Fault>(()) && *final(self) == dev,
                Err(fault) => r == Err::<(), Fault>(fault) && *final(self) == *old(self),
            },
    {
        match offset {
            0x70 => self.status = v,
            0x14 => self.device_features_sel = v,
            0x20 => {
                if self.driver_features_sel == 0 {
                    self.driver_features_low = v;
                } else if self.driver_features_sel == 1 {
                    self.driver_features_high = v;
                }
            },
            0x24 => self.driver_features_sel = v,
            0x30 => {
                if v != 0 {
                    return Err(Fault::UnsupportedQueue);
                }
            },
            0x38 => self.requestq_size = v,
            0x44 => self.requestq_ready = v,
            0x60 => self.irq_status = self.irq_status & !v,
            0x64 => {},
            0x80 => set_low_32(&mut self.requestq_desc_addr, v as u64),
            0x84 => set_high_32(&mut self.requestq_desc_addr, v as u64),
            0x90 => set_low_32(&mut self.requestq_driver_addr, v as u64),
            0x94 => set_high_32(&mut self.requestq_driver_addr, v as u64),
            0xa0 => set_low_32(&mut self.requestq_device_addr, v as u64),
            0xa4 => set_high_32(&mut self.requestq_device_addr, v as u64),
            _ => { return Err(Fault::UnknownVirtioWrite); },
        }
        Ok(())
    }
}

/// Reads the value of type `T` stored `offset` bytes after guest-physical
/// address `base`.
fn read_at<T: GuestData, const SIZE: usize>(
    ram: &GuestMemory<SIZE>,
    base: u64,
    offset: u64,
) -> (r: Result<T, Fault>)
    requires
        ram.wf(),
    ensures
        ram@.contains_range(base + offset, T::width()) ==> r == Ok::<T, Fault>(
            ram@.value::<T>(base + offset),
        ),
        !ram@.contains_range(base + offset, T::width()) ==> r == Err::<T, Fault>(Fault::OutOfRange),
{
    match base.checked_add(offset) {
        Some(addr) => if ram.contains_range(addr, T::byte_width()) {
            Ok(ram.read::<T>(addr))
        } else {
            Err(Fault::OutOfRange)
        },
        None => Err(Fault::OutOfRange),
    }
}

impl VirtioBlk {
    /// The slot of the rings that the next request uses.
    pub open spec fn spec_slot(self) -> int {
        self.requestq_next_avail as int % self.requestq_size as int
    }

    /// The next request in the available ring, read by following its chain
    /// of three descriptors: header, data buffer, status byte.
    #[verifier::opaque]
    pub open spec fn spec_fetch(self, mem: MemoryView) -> Result<BlockRequest, Fault> {
        let head_addr = self.requestq_driver_addr + 4 + 2 * self.spec_slot();
        if !mem.contains_range(head_addr, 2) {
            Err(Fault::OutOfRange)
        } else {
            let head = mem.value::<u16>(head_addr);
            let header_at = self.requestq_desc_addr + 16 * head;
            if !mem.contains_range(header_at, 16) {
                Err(Fault::OutOfRange)
            } else {
                let header = mem.value::<VirtqDesc>(header_at);
                let data_at = self.requestq_desc_addr + 16 * header.next;
                if !mem.contains_range(data_at, 16) {
                    Err(Fault::OutOfRange)
                } else {
                    let data = mem.value::<VirtqDesc>(data_at);
                    let status_at = self.requestq_desc_addr + 16 * data.next;
                    if !mem.contains_range(status_at, 16) {
                        Err(Fault::OutOfRange)
                    } else {
                        let status = mem.value::<VirtqDesc>(status_at);
                        if !mem.contains_range(header.addr as int, 16) {
                            Err(Fault::OutOfRange)
                        } else {
                            let req = mem.value::<VirtioBlkReq>(header.addr as int);
                            Ok(
                                BlockRequest {
                                    head,
                                    req_type: req.req_type,
                                    sector: req.sector,
                                    data_addr: data.addr,
                                    data_len: data.len,
                                    status_addr: status.addr,
                                },
                            )
                        }
                    }
                }
            }
        }
    }

    /// The device once it has taken one more request from the available
    /// ring.
    pub open spec fn spec_advanced(self) -> VirtioBlk {
        VirtioBlk { requestq_next_avail: next_index(self.requestq_next_avail), ..self }
    }

    /// Why `req`, the next request, cannot be served: it is no read, or its
    /// data buffer, its status byte, its element of the used ring or the
    /// used index lies outside of guest memory.
    pub open spec fn spec_request_fault(
        self,
        mem: MemoryView,
        disk_len: nat,
        req: BlockRequest,
    ) -> Option<Fault> {
        let written = transfer_len(disk_len, req.sector, req.data_len);
        let elem_addr = self.requestq_device_addr + 4 + 8 * self.spec_slot();
        let idx_addr = self.requestq_device_addr + 2;
        if req.req_type != VIRTIO_BLK_T_IN {
            Some(Fault::UnsupportedRequest)
        } else if !mem.contains_range(req.data_addr as int, written) || !mem.contains_range(
            req.status_addr as int,
            1,
        ) || !mem.contains_range(elem_addr, 8) || !mem.contains_range(idx_addr, 2) {
            Some(Fault::OutOfRange)
        } else {
            None
        }
    }

    /// The next `remaining` requests in the available ring, after those in
    /// `planned`, as guest memory holds them before any is served; or the
    /// first fault among them.
    pub open spec fn spec_plan(
        self,
        mem: MemoryView,
        disk_len: nat,
        remaining: nat,
        planned: Seq<BlockRequest>,
    ) -> Result<Seq<BlockRequest>, Fault>
        decreases remaining,
    {
        if remaining == 0 {
            Ok(planned)
        } else {
            match self.spec_fetch(mem) {
                Err(fault) => Err(fault),
                Ok(req) => match self.spec_request_fault(mem, disk_len, req) {
                    Some(fault) => Err(fault),
                    None => self.spec_advanced().spec_plan(
                        mem,
                        disk_len,
                        (remaining - 1) as nat,
                        planned.push(req),
                    ),
                },
            }
        }
    }

    /// The requests that a notify of queue `v` has the device serve: those
    /// between its own position and the driver's index; or why the notify
    /// cannot be served. Nothing is planned while the queue is not ready.
    pub open spec fn spec_plan_notify(self, mem: MemoryView, disk_len: nat, v: u32) -> Result<
        Seq<BlockRequest>,
        Fault,
    > {
        let avail_idx_addr = self.requestq_driver_addr + 2;
        if v != 0 {
            Err(Fault::UnsupportedQueue)
        } else if self.requestq_ready == 0 {
            Ok(Seq::empty())
        } else if !mem.contains_range(avail_idx_addr, 2) {
            Err(Fault::OutOfRange)
        } else {
            let pending = pending_requests(
                mem.value::<u16>(avail_idx_addr),
                self.requestq_next_avail,
            );
            if pending == 0 {
                Ok(Seq::empty())
            } else if self.requestq_size == 0 {
                Err(Fault::EmptyQueue)
            } else {
                self.spec_plan(mem, disk_len, pending, Seq::empty())
            }
        }
    }

    /// Serving `req`: the disk's bytes go to the data buffer, 0 goes to the
    /// status byte, the chain is entered in the used ring, the used index
    /// moves on by one and the interrupt bit is raised.
    #[verifier::opaque]
    pub open spec fn spec_serve(self, mem: MemoryView, disk: Seq<u8>, req: BlockRequest) -> Served {
        let data = transfer_data(disk, req.sector, req.data_len);
        let elem_addr = self.requestq_device_addr + 4 + 8 * self.spec_slot();
        let idx_addr = self.requestq_device_addr + 2;
        let next = next_index(self.requestq_next_avail);
        Served {
            dev: VirtioBlk {
                requestq_next_avail: next,
                irq_status: self.irq_status | 1,
                ..self
            },
            mem: mem.write(req.data_addr as int, data).write(
                req.status_addr as int,
                seq![VIRTIO_BLK_S_OK],
            ).write(elem_addr, used_elem_bytes(req.head, data.len() as u32)).write(
                idx_addr,
                u16_le_bytes(next),
            ),
        }
    }

    /// Serving `reqs` one after the other.
    pub open spec fn spec_serve_all(
        self,
        mem: MemoryView,
        disk: Seq<u8>,
        reqs: Seq<BlockRequest>,
    ) -> Served
        decreases reqs.len(),
    {
        if reqs.len() == 0 {
            Served { dev: self, mem }
        } else {
            let first = self.spec_serve(mem, disk, reqs[0]);
            first.dev.spec_serve_all(first.mem, disk, reqs.drop_first())
        }
    }

    /// A queue notify with the 32-bit value `v`: the device reads the
    /// driver's index once, plans every request up to it, and serves them
    /// in order. A fault in the plan leaves everything as it was.
    pub open spec fn spec_notify(self, mem: MemoryView, disk: Seq<u8>, v: u32) -> QueueOutcome {
        match self.spec_plan_notify(mem, disk.len(), v) {
            Ok(reqs) => {
                let served = self.spec_serve_all(mem, disk, reqs);
                QueueOutcome {
                    dev: served.dev,
                    mem: served.mem,
                    completed: reqs.len(),
                    fault: None,
                }
            },
            Err(fault) => QueueOutcome { dev: self, mem, completed: 0, fault: Some(fault) },
        }
    }

    /// A 4-byte store of `value` to the register at `offset`.
    pub open spec fn spec_write(
        self,
        mem: MemoryView,
        disk: Seq<u8>,
        offset: u64,
        value: u64,
    ) -> QueueOutcome {
        let v = (value & 0xffff_ffff) as u32;
        if offset == 0x50 {
            self.spec_notify(mem, disk, v)
        } else {
            match self.spec_write_register(offset, v) {
                Ok(dev) => QueueOutcome { dev, mem, completed: 0, fault: None },
                Err(fault) => QueueOutcome { dev: self, mem, completed: 0, fault: Some(fault) },
            }
        }
    }

    /// Why a guest store of `width` bytes of `value` to the register at
    /// `offset` cannot be served: the access is not 4 bytes wide, the
    /// register cannot be written, the queue is not queue 0, or a request
    /// that a notify has the device serve is no read or touches a range
    /// outside of guest memory.
    pub open spec fn spec_write_fault(
        self,
        mem: MemoryView,
        disk: Seq<u8>,
        offset: u64,
        value: u64,
        width: u64,
    ) -> Option<Fault> {
        if width != 4 {
            Some(Fault::BadAccessWidth)
        } else {
            self.spec_write(mem, disk, offset, value).fault
        }
    }

    /// Reads the next request from the available ring.
    fn fetch_request<const SIZE: usize>(&self, ram: &GuestMemory<SIZE>) -> (r: Result<
        BlockRequest,
        Fault,
    >)
        requires
            ram.wf(),
            self.requestq_size != 0,
        ensures
            r == self.spec_fetch(ram@),
    {
        reveal(VirtioBlk::spec_fetch);
        let slot: u64 = self.requestq_next_avail as u64 % self.requestq_size as u64;
        let head: u16 = read_at::<u16, SIZE>(ram, self.requestq_driver_addr, 4 + 2 * slot)?;
        let header: VirtqDesc = read_at::<VirtqDesc, SIZE>(
            ram,
            self.requestq_desc_addr,
            16 * (head as u64),
        )?;
        let data: VirtqDesc = read_at::<VirtqDesc, SIZE>(
            ram,
            self.requestq_desc_addr,
            16 * (header.next as u64),
        )?;
        let status: VirtqDesc = read_at::<VirtqDesc, SIZE>(
            ram,
            self.requestq_desc_addr,
            16 * (data.next as u64),
        )?;
        let req: VirtioBlkReq = read_at::<VirtioBlkReq, SIZE>(ram, header.addr, 0)?;
        Ok(
            BlockRequest {
                head,
                req_type: req.req_type,
                sector: req.sector,
                data_addr: data.addr,
                data_len: data.len,
                status_addr: status.addr,
            },
        )
    }

    /// Tells why `req`, the next request, cannot be served, if it cannot.
    fn request_fault<const SIZE: usize>(
        &self,
        ram: &GuestMemory<SIZE>,
        disk_len: usize,
        req: &BlockRequest,
    ) -> (fault: Option<Fault>)
        requires
            ram.wf(),
            self.requestq_size != 0,
        ensures
            fault == self.spec_request_fault(ram@, disk_len as nat, *req),
    {
        if req.req_type != VIRTIO_BLK_T_IN {
            return Some(Fault::UnsupportedRequest);
        }
        let written = transfer_length(disk_len, req.sector, req.data_len);
        let slot: u64 = self.requestq_next_avail as u64 % self.requestq_size as u64;
        if in_reach(ram, req.data_addr, 0, written as usize) && in_reach(ram, req.status_addr, 0, 1)
            && in_reach(ram, self.requestq_device_addr, 4 + 8 * slot, 8) && in_reach(
            ram,
            self.requestq_device_addr,
            2,
            2,
        ) {
            None
        } else {
            Some(Fault::OutOfRange)
        }
    }

    /// Reads the requests that a notify of queue `queue_index` has the
    /// device serve, or tells why the notify cannot be served. Nothing is
    /// changed.
    pub fn plan_queue<const SIZE: usize>(
        &self,
        ram: &GuestMemory<SIZE>,
        disk: &[u8],
        queue_index: u32,
    ) -> (r: Result<Vec<BlockRequest>, Fault>)
        requires
            ram.wf(),
        ensures
            match self.spec_plan_notify(ram@, disk@.len(), queue_index) {
                Ok(reqs) => r matches Ok(planned) && planned@ == reqs,
                Err(fault) => r matches Err(reason) && reason == fault,
            },
    {
        let mut planned: Vec<BlockRequest> = Vec::new();
        if queue_index != 0 {
            return Err(Fault::UnsupportedQueue);
        }
        if self.requestq_ready == 0 {
            return Ok(planned);
        }
        let avail_idx: u16 = read_at::<u16, SIZE>(ram, self.requestq_driver_addr, 2)?;
        let mut remaining: u32 = (avail_idx as u32 + 0x10000 - self.requestq_next_avail as u32)
            % 0x10000;
        if remaining == 0 {
            return Ok(planned);
        }
        if self.requestq_size == 0 {
            return Err(Fault::EmptyQueue);
        }
        let ghost goal = self.spec_plan_notify(ram@, disk@.len(), queue_index);
        let mut dev = *self;
        while remaining > 0
            invariant
                ram.wf(),
                dev.requestq_size != 0,
                goal == self.spec_plan_notify(ram@, disk@.len(), queue_index),
                goal == dev.spec_plan(ram@, disk@.len(), remaining as nat, planned@),
            decreases remaining,
        {
            let req = match dev.fetch_request(ram) {
                Ok(req) => req,
                Err(fault) => { return Err(fault); },
            };
            match dev.request_fault(ram, disk.len(), &req) {
                Some(fault) => { return Err(fault); },
                None => {},
            }
            planned.push(req);
            dev.requestq_next_avail = if dev.requestq_next_avail == 0xffff {
                0
            } else {
                dev.requestq_next_avail + 1
            };
            remaining -= 1;
        }
        Ok(planned)
    }

    /// Tells why a notify of queue `queue_index` cannot be served, if it
    /// cannot.
    pub fn queue_fault<const SIZE: usize>(
        &self,
        ram: &GuestMemory<SIZE>,
        disk: &[u8],
        queue_index: u32,
    ) -> (fault: Option<Fault>)
        requires
            ram.wf(),
        ensures
            fault == self.spec_notify(ram@, disk@, queue_index).fault,
    {
        match self.plan_queue(ram, disk, queue_index) {
            Ok(_) => None,
            Err(fault) => Some(fault),
        }
    }

    /// Tells why a guest store of `width` bytes of `value` to the register
    /// at `offset` cannot be served, if it cannot.
    pub fn write_fault<const SIZE: usize>(
        &self,
        ram: &GuestMemory<SIZE>,
        disk: &[u8],
        offset: u64,
        value: u64,
        width: u64,
    ) -> (fault: Option<Fault>)
        requires
            ram.wf(),
        ensures
            fault == self.spec_write_fault(ram@, disk@, offset, value, width),
    {
        if width != 4 {
            return Some(Fault::BadAccessWidth);
        }
        let v = low_32(value);
        if offset == 0x50 {
            self.queue_fault(ram, disk, v)
        } else {
            let mut dev = *self;
            match dev.write_register(offset, v) {
                Ok(()) => None,
                Err(fault) => Some(fault),
            }
        }
    }

    /// Serves `req`, the next request, from `disk` and publishes it in the
    /// used ring.
    fn serve_request<const SIZE: usize>(
        &mut self,
        ram: &mut GuestMemory<SIZE>,
        disk: &[u8],
        req: &BlockRequest,
    )
        requires
            old(ram).wf(),
            old(self).requestq_size != 0,
            old(self).spec_request_fault(old(ram)@, disk@.len(), *req) is None,
        ensures
            final(ram).wf(),
            final(ram).spec_host_base() == old(ram).spec_host_base(),
            *final(self) == old(self).spec_serve(old(ram)@, disk@, *req).dev,
            final(ram)@ == old(self).spec_serve(old(ram)@, disk@, *req).mem,
    {
        reveal(VirtioBlk::spec_serve);
        let written: u32 = transfer_length(disk.len(), req.sector, req.data_len);
        let data: &[u8] = if written == 0 {
            slice_subrange(disk, 0, 0)
        } else {
            let start: usize = (req.sector * SECTOR_SIZE) as usize;
            slice_subrange(disk, start, start + written as usize)
        };
        assert(data@ =~= transfer_data(disk@, req.sector, req.data_len));
        ram.write_bytes(req.data_addr, data);
        let status: [u8; 1] = [VIRTIO_BLK_S_OK];
        assert(status@ =~= seq![VIRTIO_BLK_S_OK]);
        ram.write_bytes(req.status_addr, status.as_slice());
        let id: u32 = req.head as u32;
        let elem: [u8; 8] = [
            (id & 0xff) as u8,
            ((id >> 8) & 0xff) as u8,
            ((id >> 16) & 0xff) as u8,
            (id >> 24) as u8,
            (written & 0xff) as u8,
            ((written >> 8) & 0xff) as u8,
            ((written >> 16) & 0xff) as u8,
            (written >> 24) as u8,
        ];
        assert(elem@ =~= used_elem_bytes(req.head, written));
        let slot: u64 = self.requestq_next_avail as u64 % self.requestq_size as u64;
        ram.write_bytes(self.requestq_device_addr + (4 + 8 * slot), elem.as_slice());
        let next: u16 = if self.requestq_next_avail == 0xffff {
            0
        } else {
            self.requestq_next_avail + 1
        };
        let idx: [u8; 2] = [(next & 0xff) as u8, (next >> 8) as u8];
        assert(idx@ =~= u16_le_bytes(next));
        ram.write_bytes(self.requestq_device_addr + 2, idx.as_slice());
        self.requestq_next_avail = next;
        self.irq_status = self.irq_status | 1;
    }

    /// Serves the requests that the driver has made available on queue
    /// `queue_index` and raises the device's interrupt at `plic` if there
    /// is one. The notify has to be one that can be served: of queue 0,
    /// with reads only, and with every range that the requests touch inside
    /// of `ram`.
    pub fn process_queue<const SIZE: usize>(
        &mut self,
        ram: &mut GuestMemory<SIZE>,
        plic: &mut Plic,
        disk: &[u8],
        queue_index: u32,
    )
        requires
            old(ram).wf(),
            old(self).spec_notify(old(ram)@, disk@, queue_index).fault is None,
        ensures
            final(ram).wf(),
            final(ram).spec_host_base() == old(ram).spec_host_base(),
            ({
                let out = old(self).spec_notify(old(ram)@, disk@, queue_index);
                &&& *final(self) == out.dev
                &&& final(ram)@ == out.mem
                &&& final(plic).pending() == if out.completed > 0 {
                    old(plic).pending().insert(VIRTIO_BLK_IRQ)
                } else {
                    old(plic).pending()
                }
            }),
    {
        let planned = match self.plan_queue(ram, disk, queue_index) {
            Ok(planned) => planned,
            Err(_) => { return ; },
        };
        let ghost reqs = planned@;
        let ghost goal = self.spec_serve_all(ram@, disk@, reqs);
        proof {
            lemma_notify_plan(*self, ram@, disk@.len(), queue_index);
            assert(reqs.subrange(0, reqs.len() as int) =~= reqs);
        }
        let mut i: usize = 0;
        while i < planned.len()
            invariant
                ram.wf(),
                ram.spec_host_base() == old(ram).spec_host_base(),
                planned@ == reqs,
                i <= reqs.len(),
                reqs.len() > 0 ==> self.requestq_size != 0,
                ram@.base == old(ram)@.base,
                ram@.bytes.len() == old(ram)@.bytes.len(),
                self.requestq_size == old(self).requestq_size,
                self.requestq_device_addr == old(self).requestq_device_addr,
                self.requestq_next_avail == index_after(old(self).requestq_next_avail, i as nat),
                forall|j: int|
                    0 <= j < reqs.len() ==> old(self).spec_advanced_by(j as nat).spec_request_fault(
                        old(ram)@,
                        disk@.len(),
                        #[trigger] reqs[j],
                    ) is None,
                goal == self.spec_serve_all(
                    ram@,
                    disk@,
                    reqs.subrange(i as int, reqs.len() as int),
                ),
            decreases reqs.len() - i,
        {
            let req = planned[i];
            proof {
                let rest = reqs.subrange(i as int, reqs.len() as int);
                assert(rest[0] == reqs[i as int]);
                assert(rest.drop_first() =~= reqs.subrange(i + 1, reqs.len() as int));
                assert(old(self).spec_advanced_by(i as nat).spec_request_fault(
                    old(ram)@,
                    disk@.len(),
                    reqs[i as int],
                ) is None);
                lemma_serve_shape(*self, ram@, disk@, req);
            }
            self.serve_request(ram, disk, &req);
            i += 1;
        }
        if planned.len() > 0 {
            plic.add_pending_irq(VIRTIO_BLK_IRQ);
        }
    }

    /// Serves a guest store of `width` bytes of `value` to the register at
    /// `offset`. Only the low 32 bits of `value` are stored. A store to
    /// queue notify has the device serve the requests in the queue against
    /// `ram` and `disk`. The store has to be one that can be served: 4
    /// bytes wide, to a register that can be written, and with a notify
    /// that can be served.
    pub fn handle_mmio_write<const SIZE: usize>(
        &mut self,
        ram: &mut GuestMemory<SIZE>,
        plic: &mut Plic,
        disk: &[u8],
        offset: u64,
        value: u64,
        width: u64,
    )
        requires
            old(ram).wf(),
            old(self).spec_write_fault(old(ram)@, disk@, offset, value, width) is None,
        ensures
            final(ram).wf(),
            final(ram).spec_host_base() == old(ram).spec_host_base(),
            ({
                let out = old(self).spec_write(old(ram)@, disk@, offset, value);
                &&& *final(self) == out.dev
                &&& final(ram)@ == out.mem
                &&& final(plic).pending() == if out.completed > 0 {
                    old(plic).pending().insert(VIRTIO_BLK_IRQ)
                } else {
                    old(plic).pending()
                }
            }),
    {
        let v = low_32(value);
        if offset == 0x50 {
            self.process_queue(ram, plic, disk, v);
        } else {
            let _ = self.write_register(offset, v);
        }
    }

    /// The device once it has taken `n` more requests from the available
    /// ring.
    pub open spec fn spec_advanced_by(self, n: nat) -> VirtioBlk {
        VirtioBlk { requestq_next_avail: index_after(self.requestq_next_avail, n), ..self }
    }
}

/// The low 32 bits of `value`.
fn low_32(value: u64) -> (v: u32)
    ensures
        v == (value & 0xffff_ffff) as u32,
{
    let low: u64 = value & 0xffff_ffff;
    assert(low <= 0xffff_ffff) by (bit_vector)
        requires
            low == value & 0xffff_ffff,
    ;
    low as u32
}

/// Number of bytes that a read of `data_len` bytes at `sector` transfers
/// from a disk of `disk_len` bytes.
fn transfer_length(disk_len: usize, sector: u64, data_len: u32) -> (written: u32)
    ensures
        written == transfer_len(disk_len as nat, sector, data_len),
{
    let disk_len: u64 = disk_len as u64;
    let in_reach: u64 = match sector.checked_mul(SECTOR_SIZE) {
        Some(start) => if start <= disk_len {
            disk_len - start
        } else {
            0
        },
        None => 0,
    };
    if data_len as u64 <= in_reach {
        data_len
    } else {
        in_reach as u32
    }
}

/// Whether the `len` bytes that begin `offset` bytes after guest-physical
/// address `base` lie inside of `ram`.
fn in_reach<const SIZE: usize>(
    ram: &GuestMemory<SIZE>,
    base: u64,
    offset: u64,
    len: usize,
) -> (inside: bool)
    requires
        ram.wf(),
    ensures
        inside == ram@.contains_range(base + offset, len as nat),
{
    match base.checked_add(offset) {
        Some(addr) => ram.contains_range(addr, len),
        None => false,
    }
}

/// The ring index that lies `n` steps after `i`.
pub open spec fn index_after(i: u16, n: nat) -> u16 {
    ((i + n) % 0x10000) as u16
}

/// The bytes of a 16-bit number decode to the number.
proof fn lemma_u16_round_trip(x: u16)
    ensures
        le_u16(u16_le_bytes(x)) == x,
{
    let b = u16_le_bytes(x);
    let lo = (x & 0xff) as u8;
    let hi = (x >> 8) as u8;
    assert(b[0] == lo && b[1] == hi);
    assert((lo as u16) | (hi as u16) << 8 == x) by (bit_vector)
        requires
            lo == (x & 0xff) as u8,
            hi == (x >> 8) as u8,
    ;
}

/// The bytes of a 32-bit number decode to the number.
proof fn lemma_u32_round_trip(x: u32)
    ensures
        le_u32(u32_le_bytes(x)) == x,
{
    let b = u32_le_bytes(x);
    let b0 = (x & 0xff) as u8;
    let b1 = ((x >> 8) & 0xff) as u8;
    let b2 = ((x >> 16) & 0xff) as u8;
    let b3 = (x >> 24) as u8;
    assert(b[0] == b0 && b[1] == b1 && b[2] == b2 && b[3] == b3);
    assert((b0 as u32) | (b1 as u32) << 8 | (b2 as u32) << 16 | (b3 as u32) << 24 == x)
        by (bit_vector)
        requires
            b0 == (x & 0xff) as u8,
            b1 == ((x >> 8) & 0xff) as u8,
            b2 == ((x >> 16) & 0xff) as u8,
            b3 == (x >> 24) as u8,
    ;
}

/// A plan holds the requests as the device would fetch them one after the
/// other from guest memory as it is, and each of them can be served where
/// the device then stands.
pub proof fn lemma_plan_admits(
    dev: VirtioBlk,
    mem: MemoryView,
    disk_len: nat,
    remaining: nat,
    planned: Seq<BlockRequest>,
)
    requires
        dev.spec_plan(mem, disk_len, remaining, planned) is Ok,
    ensures
        ({
            let reqs = dev.spec_plan(mem, disk_len, remaining, planned)->Ok_0;
            &&& reqs.len() == planned.len() + remaining
            &&& reqs.subrange(0, planned.len() as int) == planned
            &&& forall|j: int|
                0 <= j < remaining ==> {
                    let at = dev.spec_advanced_by(j as nat);
                    &&& at.spec_fetch(mem) == Ok::<BlockRequest, Fault>(
                        #[trigger] reqs[planned.len() + j],
                    )
                    &&& at.spec_request_fault(mem, disk_len, reqs[planned.len() + j]) is None
                }
        }),
    decreases remaining,
{
    let reqs = dev.spec_plan(mem, disk_len, remaining, planned)->Ok_0;
    if remaining == 0 {
        assert(reqs.subrange(0, planned.len() as int) =~= planned);
    } else {
        let req = dev.spec_fetch(mem)->Ok_0;
        let next = dev.spec_advanced();
        let rest = (remaining - 1) as nat;
        lemma_plan_admits(next, mem, disk_len, rest, planned.push(req));
        assert(reqs.subrange(0, planned.len() as int) =~= planned) by {
            assert(reqs.subrange(0, planned.len() as int + 1) == planned.push(req));
            assert forall|j: int| 0 <= j < planned.len() implies reqs[j] == planned[j] by {
                assert(reqs.subrange(0, planned.len() as int + 1)[j] == planned.push(req)[j]);
            }
        }
        assert(reqs[planned.len() as int] == req) by {
            assert(reqs.subrange(0, planned.len() as int + 1)[planned.len() as int] == planned.push(
                req,
            )[planned.len() as int]);
        }
        assert(dev.spec_advanced_by(0) == dev);
        assert forall|j: int| 0 <= j < remaining implies {
            let at = dev.spec_advanced_by(j as nat);
            &&& at.spec_fetch(mem) == Ok::<BlockRequest, Fault>(#[trigger] reqs[planned.len() + j])
            &&& at.spec_request_fault(mem, disk_len, reqs[planned.len() + j]) is None
        } by {
            if j > 0 {
                assert(next.spec_advanced_by((j - 1) as nat) == dev.spec_advanced_by(j as nat));
                assert(reqs[planned.push(req).len() + (j - 1)] == reqs[planned.len() + j]);
            }
        }
    }
}

/// The plan of a notify holds as many requests as are pending, each as the
/// device would fetch it from guest memory as it is, and each can be served
/// where the device then stands.
pub proof fn lemma_notify_plan(dev: VirtioBlk, mem: MemoryView, disk_len: nat, v: u32)
    requires
        dev.spec_plan_notify(mem, disk_len, v) is Ok,
    ensures
        ({
            let reqs = dev.spec_plan_notify(mem, disk_len, v)->Ok_0;
            &&& v == 0
            &&& reqs.len() > 0 ==> dev.requestq_ready != 0 && dev.requestq_size != 0
                && mem.contains_range(dev.requestq_driver_addr + 2, 2)
            &&& dev.requestq_ready != 0 ==> mem.contains_range(dev.requestq_driver_addr + 2, 2)
                && reqs.len() == pending_requests(
                mem.value::<u16>(dev.requestq_driver_addr + 2),
                dev.requestq_next_avail,
            )
            &&& forall|j: int|
                0 <= j < reqs.len() ==> {
                    let at = dev.spec_advanced_by(j as nat);
                    &&& at.spec_fetch(mem) == Ok::<BlockRequest, Fault>(#[trigger] reqs[j])
                    &&& at.spec_request_fault(mem, disk_len, reqs[j]) is None
                }
        }),
{
    if dev.requestq_ready != 0 {
        let pending = pending_requests(
            mem.value::<u16>(dev.requestq_driver_addr + 2),
            dev.requestq_next_avail,
        );
        if pending > 0 {
            lemma_plan_admits(dev, mem, disk_len, pending, Seq::empty());
            let reqs = dev.spec_plan_notify(mem, disk_len, v)->Ok_0;
            assert forall|j: int| 0 <= j < reqs.len() implies {
                let at = dev.spec_advanced_by(j as nat);
                &&& at.spec_fetch(mem) == Ok::<BlockRequest, Fault>(#[trigger] reqs[j])
                &&& at.spec_request_fault(mem, disk_len, reqs[j]) is None
            } by {
                assert(reqs[Seq::<BlockRequest>::empty().len() + j] == reqs[j]);
            }
        }
    }
}

/// Serving a request moves the device's position on by one, raises the
/// interrupt bit and keeps the rest of the device; guest memory keeps its
/// place and size, and the used index in it is the device's new position.
proof fn lemma_serve_shape(dev: VirtioBlk, mem: MemoryView, disk: Seq<u8>, req: BlockRequest)
    requires
        dev.spec_request_fault(mem, disk.len(), req) is None,
    ensures
        ({
            let out = dev.spec_serve(mem, disk, req);
            let idx_addr = dev.requestq_device_addr + 2;
            &&& out.dev == (VirtioBlk {
                requestq_next_avail: next_index(dev.requestq_next_avail),
                irq_status: dev.irq_status | 1,
                ..dev
            })
            &&& out.mem.base == mem.base
            &&& out.mem.bytes.len() == mem.bytes.len()
            &&& out.mem.contains_range(idx_addr, 2)
            &&& out.mem.value::<u16>(idx_addr) == out.dev.requestq_next_avail
        }),
{
    reveal(VirtioBlk::spec_serve);
    let out = dev.spec_serve(mem, disk, req);
    let idx_addr = dev.requestq_device_addr + 2;
    let next = next_index(dev.requestq_next_avail);
    lemma_u16_round_trip(next);
    assert(out.mem.read(idx_addr, 2) =~= u16_le_bytes(next));
}

/// Each of `reqs` can be served where the device stands when its turn
/// comes: the first where it stands now, each other one place further on.
pub open spec fn all_admitted(
    dev: VirtioBlk,
    mem: MemoryView,
    disk_len: nat,
    reqs: Seq<BlockRequest>,
) -> bool {
    forall|j: int|
        0 <= j < reqs.len() ==> dev.spec_advanced_by(j as nat).spec_request_fault(
            mem,
            disk_len,
            #[trigger] reqs[j],
        ) is None
}

/// What holds of the first of `reqs` and of the rest once the first is
/// served.
proof fn lemma_admitted_rest(
    dev: VirtioBlk,
    mem: MemoryView,
    disk: Seq<u8>,
    reqs: Seq<BlockRequest>,
)
    requires
        reqs.len() > 0,
        all_admitted(dev, mem, disk.len(), reqs),
    ensures
        dev.spec_request_fault(mem, disk.len(), reqs[0]) is None,
        all_admitted(
            dev.spec_serve(mem, disk, reqs[0]).dev,
            dev.spec_serve(mem, disk, reqs[0]).mem,
            disk.len(),
            reqs.drop_first(),
        ),
{
    let first = dev.spec_serve(mem, disk, reqs[0]);
    let rest = reqs.drop_first();
    assert(dev.spec_advanced_by(0) == dev);
    assert(dev.spec_advanced_by(0).spec_request_fault(mem, disk.len(), reqs[0]) is None);
    lemma_serve_shape(dev, mem, disk, reqs[0]);
    assert forall|j: int| 0 <= j < rest.len() implies first.dev.spec_advanced_by(
        j as nat,
    ).spec_request_fault(first.mem, disk.len(), #[trigger] rest[j]) is None by {
        let before = dev.spec_advanced_by((j + 1) as nat);
        let after = first.dev.spec_advanced_by(j as nat);
        assert(rest[j] == reqs[j + 1]);
        assert(before.spec_request_fault(mem, disk.len(), reqs[j + 1]) is None);
        assert(after.requestq_next_avail == before.requestq_next_avail);
        assert(after.spec_slot() == before.spec_slot());
    }
}

/// Serving requests moves the device's position on by their number, raises
/// the interrupt bit if there is one, and keeps the rest of the device;
/// guest memory keeps its place and size, and the used index in it is the
/// device's new position once a request was served.
pub proof fn lemma_serve_all_shape(
    dev: VirtioBlk,
    mem: MemoryView,
    disk: Seq<u8>,
    reqs: Seq<BlockRequest>,
)
    requires
        all_admitted(dev, mem, disk.len(), reqs),
    ensures
        ({
            let out = dev.spec_serve_all(mem, disk, reqs);
            let idx_addr = dev.requestq_device_addr + 2;
            &&& out.dev == (VirtioBlk {
                requestq_next_avail: index_after(dev.requestq_next_avail, reqs.len()),
                irq_status: if reqs.len() > 0 {
                    dev.irq_status | 1
                } else {
                    dev.irq_status
                },
                ..dev
            })
            &&& out.mem.base == mem.base
            &&& out.mem.bytes.len() == mem.bytes.len()
            &&& reqs.len() > 0 ==> out.mem.contains_range(idx_addr, 2) && out.mem.value::<u16>(
                idx_addr,
            ) == out.dev.requestq_next_avail
        }),
    decreases reqs.len(),
{
    let out = dev.spec_serve_all(mem, disk, reqs);
    let position = dev.requestq_next_avail;
    if reqs.len() == 0 {
        assert(out.dev == dev && out.mem == mem);
        assert(index_after(position, 0) == position);
    } else {
        let first = dev.spec_serve(mem, disk, reqs[0]);
        let rest = reqs.drop_first();
        lemma_admitted_rest(dev, mem, disk, reqs);
        lemma_serve_shape(dev, mem, disk, reqs[0]);
        lemma_serve_all_shape(first.dev, first.mem, disk, rest);
        assert(out == first.dev.spec_serve_all(first.mem, disk, rest));
        assert(rest.len() == reqs.len() - 1);
        assert(first.dev.requestq_next_avail == next_index(position));
        assert(index_after(next_index(position), rest.len()) == index_after(position, reqs.len()))
            by {
            if position == 0xffff {
                assert((0 + rest.len()) % 0x10000 == (0xffff + reqs.len()) % 0x10000);
            } else {
                assert((position + 1 + rest.len()) % 0x10000 == (position + reqs.len())
                    % 0x10000);
            }
        }
        let irq = dev.irq_status;
        assert((irq | 1) | 1 == irq | 1) by (bit_vector);
        assert(first.dev.irq_status == irq | 1);
        assert(out.dev.irq_status == irq | 1);
        assert(out.dev.requestq_next_avail == index_after(position, reqs.len()));
        assert(first.dev.requestq_device_addr == dev.requestq_device_addr);
        if rest.len() == 0 {
            assert(out.dev == first.dev && out.mem == first.mem);
        }
    }
}

/// After a queue notify that can be served, the used index equals the
/// available index that the driver published: in the device, and in guest
/// memory once a request was served. As many requests were served as were
/// pending, and the interrupt is raised exactly when one was.
pub proof fn lemma_used_index_reaches_avail(dev: VirtioBlk, mem: MemoryView, disk: Seq<u8>)
    requires
        dev.requestq_ready != 0,
        dev.spec_notify(mem, disk, 0).fault is None,
    ensures
        ({
            let avail_idx = mem.value::<u16>(dev.requestq_driver_addr + 2);
            let out = dev.spec_notify(mem, disk, 0);
            &&& out.dev.requestq_next_avail == avail_idx
            &&& out.completed == pending_requests(avail_idx, dev.requestq_next_avail)
            &&& out.completed > 0 ==> {
                &&& out.mem.value::<u16>(dev.requestq_device_addr + 2) == avail_idx
                &&& out.dev.irq_status & 1 == 1
            }
            &&& out.completed == 0 ==> out.dev == dev && out.mem == mem
        }),
{
    let reqs = dev.spec_plan_notify(mem, disk.len(), 0)->Ok_0;
    lemma_notify_plan(dev, mem, disk.len(), 0);
    lemma_serve_all_shape(dev, mem, disk, reqs);
    let irq = dev.irq_status;
    assert((irq | 1) & 1 == 1) by (bit_vector);
}

/// The device never writes the data or the status of one of `reqs` into
/// its used ring.
pub open spec fn spares_used_ring(dev: VirtioBlk, disk_len: nat, reqs: Seq<BlockRequest>) -> bool {
    forall|j: int|
        0 <= j < reqs.len() ==> {
            let req = #[trigger] reqs[j];
            let ring = dev.requestq_device_addr as int;
            let ring_end = ring + 4 + 8 * dev.requestq_size;
            let written = transfer_len(disk_len, req.sector, req.data_len);
            &&& req.data_addr + written <= ring || ring_end <= req.data_addr
            &&& req.status_addr + 1 <= ring || ring_end <= req.status_addr
        }
}

/// One served request leaves its element in its slot of the used ring and
/// keeps every other slot of the ring as it was.
proof fn lemma_serve_enters_element(
    dev: VirtioBlk,
    mem: MemoryView,
    disk: Seq<u8>,
    req: BlockRequest,
    slot: int,
)
    requires
        dev.spec_request_fault(mem, disk.len(), req) is None,
        spares_used_ring(dev, disk.len(), seq![req]),
        dev.requestq_next_avail < dev.requestq_size,
        0 <= slot < dev.requestq_size,
    ensures
        ({
            let out = dev.spec_serve(mem, disk, req);
            let at = dev.requestq_device_addr + 4 + 8 * slot;
            let written = transfer_len(disk.len(), req.sector, req.data_len);
            &&& slot == dev.requestq_next_avail ==> {
                &&& out.mem.contains_range(at, 8)
                &&& out.mem.read(at, 8) == used_elem_bytes(req.head, written as u32)
            }
            &&& slot != dev.requestq_next_avail && mem.contains_range(at, 8) ==> out.mem.read(at, 8)
                == mem.read(at, 8)
        }),
{
    reveal(VirtioBlk::spec_serve);
    let data = transfer_data(disk, req.sector, req.data_len);
    let at = dev.requestq_device_addr + 4 + 8 * slot;
    let elem_addr = dev.requestq_device_addr + 4 + 8 * dev.spec_slot();
    let idx_addr = dev.requestq_device_addr + 2;
    let next = next_index(dev.requestq_next_avail);
    vstd::arithmetic::div_mod::lemma_small_mod(
        dev.requestq_next_avail as nat,
        dev.requestq_size as nat,
    );
    assert(dev.spec_slot() == dev.requestq_next_avail);
    assert(data.len() == transfer_len(disk.len(), req.sector, req.data_len));
    assert(seq![req][0] == req);
    let mem1 = mem.write(req.data_addr as int, data);
    let mem2 = mem1.write(req.status_addr as int, seq![VIRTIO_BLK_S_OK]);
    let elem = used_elem_bytes(req.head, data.len() as u32);
    let mem3 = mem2.write(elem_addr, elem);
    let mem4 = mem3.write(idx_addr, u16_le_bytes(next));
    assert(dev.spec_serve(mem, disk, req).mem == mem4);
    if slot == dev.requestq_next_avail {
        lemma_read_after_write(mem2, elem_addr, elem);
        lemma_write_keeps(mem3, idx_addr, u16_le_bytes(next), at, 8);
    } else if mem.contains_range(at, 8) {
        lemma_write_keeps(mem, req.data_addr as int, data, at, 8);
        lemma_write_keeps(mem1, req.status_addr as int, seq![VIRTIO_BLK_S_OK], at, 8);
        lemma_write_keeps(mem2, elem_addr, elem, at, 8);
        lemma_write_keeps(mem3, idx_addr, u16_le_bytes(next), at, 8);
    }
}

/// What sparing the used ring gives for the first of `reqs` and for the
/// rest.
proof fn lemma_spares_rest(
    dev: VirtioBlk,
    mem: MemoryView,
    disk: Seq<u8>,
    reqs: Seq<BlockRequest>,
)
    requires
        reqs.len() > 0,
        all_admitted(dev, mem, disk.len(), reqs),
        spares_used_ring(dev, disk.len(), reqs),
    ensures
        spares_used_ring(dev, disk.len(), seq![reqs[0]]),
        spares_used_ring(dev.spec_serve(mem, disk, reqs[0]).dev, disk.len(), reqs.drop_first()),
{
    let first = dev.spec_serve(mem, disk, reqs[0]);
    let rest = reqs.drop_first();
    lemma_admitted_rest(dev, mem, disk, reqs);
    lemma_serve_shape(dev, mem, disk, reqs[0]);
    assert forall|j: int| 0 <= j < rest.len() implies {
        let req = #[trigger] rest[j];
        let ring = first.dev.requestq_device_addr as int;
        let ring_end = ring + 4 + 8 * first.dev.requestq_size;
        let written = transfer_len(disk.len(), req.sector, req.data_len);
        &&& req.data_addr + written <= ring || ring_end <= req.data_addr
        &&& req.status_addr + 1 <= ring || ring_end <= req.status_addr
    } by {
        assert(rest[j] == reqs[j + 1]);
    }
    assert forall|j: int| 0 <= j < 1 implies {
        let req = #[trigger] seq![reqs[0]][j];
        let ring = dev.requestq_device_addr as int;
        let ring_end = ring + 4 + 8 * dev.requestq_size;
        let written = transfer_len(disk.len(), req.sector, req.data_len);
        &&& req.data_addr + written <= ring || ring_end <= req.data_addr
        &&& req.status_addr + 1 <= ring || ring_end <= req.status_addr
    } by {
        assert(seq![reqs[0]][j] == reqs[0]);
    }
}

/// Requests that are served without reaching the end of the used ring keep
/// every slot of the ring that lies before their first.
proof fn lemma_run_keeps_earlier_slots(
    dev: VirtioBlk,
    mem: MemoryView,
    disk: Seq<u8>,
    reqs: Seq<BlockRequest>,
    slot: int,
)
    requires
        all_admitted(dev, mem, disk.len(), reqs),
        spares_used_ring(dev, disk.len(), reqs),
        dev.requestq_next_avail + reqs.len() <= dev.requestq_size,
        dev.requestq_next_avail + reqs.len() <= 0x10000,
        0 <= slot < dev.requestq_next_avail,
        mem.contains_range(dev.requestq_device_addr + 4 + 8 * slot, 8),
    ensures
        ({
            let out = dev.spec_serve_all(mem, disk, reqs);
            let at = dev.requestq_device_addr + 4 + 8 * slot;
            out.mem.contains_range(at, 8) && out.mem.read(at, 8) == mem.read(at, 8)
        }),
    decreases reqs.len(),
{
    if reqs.len() > 0 {
        let first = dev.spec_serve(mem, disk, reqs[0]);
        lemma_admitted_rest(dev, mem, disk, reqs);
        lemma_spares_rest(dev, mem, disk, reqs);
        lemma_serve_shape(dev, mem, disk, reqs[0]);
        lemma_serve_enters_element(dev, mem, disk, reqs[0], slot);
        if reqs.len() > 1 {
            lemma_run_keeps_earlier_slots(first.dev, first.mem, disk, reqs.drop_first(), slot);
        } else {
            assert(reqs.drop_first().len() == 0);
        }
    }
}

/// The used ring after requests were served holds, for each of them, the
/// head of its descriptor chain and the number of bytes it transferred:
/// request `k` stands in the slot `k` places after the slot where the first
/// stands. This holds of requests that do not reach the end of the ring
/// and whose data and status buffers lie outside the ring.
pub proof fn lemma_used_ring_holds_requests(
    dev: VirtioBlk,
    mem: MemoryView,
    disk: Seq<u8>,
    reqs: Seq<BlockRequest>,
    k: int,
)
    requires
        all_admitted(dev, mem, disk.len(), reqs),
        spares_used_ring(dev, disk.len(), reqs),
        dev.requestq_next_avail + reqs.len() <= dev.requestq_size,
        dev.requestq_next_avail + reqs.len() <= 0x10000,
        0 <= k < reqs.len(),
    ensures
        ({
            let out = dev.spec_serve_all(mem, disk, reqs);
            let at = dev.requestq_device_addr + 4 + 8 * (dev.requestq_next_avail + k);
            &&& out.mem.contains_range(at, 8)
            &&& out.mem.value::<u32>(at) == reqs[k].head
            &&& out.mem.value::<u32>(at + 4) == transfer_len(
                disk.len(),
                reqs[k].sector,
                reqs[k].data_len,
            )
        }),
    decreases reqs.len(),
{
    let first = dev.spec_serve(mem, disk, reqs[0]);
    let rest = reqs.drop_first();
    let out = dev.spec_serve_all(mem, disk, reqs);
    let at = dev.requestq_device_addr + 4 + 8 * (dev.requestq_next_avail + k);
    lemma_admitted_rest(dev, mem, disk, reqs);
    lemma_spares_rest(dev, mem, disk, reqs);
    lemma_serve_shape(dev, mem, disk, reqs[0]);
    if k == 0 {
        let written = transfer_len(disk.len(), reqs[0].sector, reqs[0].data_len);
        lemma_serve_enters_element(dev, mem, disk, reqs[0], dev.requestq_next_avail as int);
        if rest.len() > 0 {
            lemma_run_keeps_earlier_slots(
                first.dev,
                first.mem,
                disk,
                rest,
                dev.requestq_next_avail as int,
            );
        }
        let bytes = used_elem_bytes(reqs[0].head, written as u32);
        assert(out.mem.read(at, 8) == bytes);
        assert(out.mem.read(at, 4) =~= bytes.subrange(0, 4));
        assert(out.mem.read(at + 4, 4) =~= bytes.subrange(4, 8));
        assert(bytes.subrange(0, 4) =~= u32_le_bytes(reqs[0].head as u32));
        assert(bytes.subrange(4, 8) =~= u32_le_bytes(written as u32));
        lemma_u32_round_trip(reqs[0].head as u32);
        lemma_u32_round_trip(written as u32);
    } else {
        lemma_used_ring_holds_requests(first.dev, first.mem, disk, rest, k - 1);
        assert(rest[k - 1] == reqs[k]);
        assert(first.dev.requestq_next_avail == dev.requestq_next_avail + 1);
    }
}

/// After a queue notify that can be served, the used ring names the chains
/// that the driver entered in the available ring, in the driver's order and
/// each with the number of bytes that the read transferred: the element `k`
/// places after the device's old position holds the head that the
/// available ring held in that slot. This holds of a notify whose requests
/// do not reach the end of the rings and whose data and status buffers lie
/// outside the used ring.
pub proof fn lemma_used_ring_names_driver_heads(
    dev: VirtioBlk,
    mem: MemoryView,
    disk: Seq<u8>,
    k: int,
)
    requires
        dev.spec_notify(mem, disk, 0).fault is None,
        0 <= k < dev.spec_notify(mem, disk, 0).completed,
        dev.requestq_next_avail + dev.spec_notify(mem, disk, 0).completed <= dev.requestq_size,
        dev.requestq_next_avail + dev.spec_notify(mem, disk, 0).completed <= 0x10000,
        spares_used_ring(dev, disk.len(), dev.spec_plan_notify(mem, disk.len(), 0)->Ok_0),
    ensures
        ({
            let out = dev.spec_notify(mem, disk, 0);
            let req = (dev.spec_plan_notify(mem, disk.len(), 0)->Ok_0)[k];
            let slot = dev.requestq_next_avail + k;
            let used = dev.requestq_device_addr + 4 + 8 * slot;
            let avail = dev.requestq_driver_addr + 4 + 2 * slot;
            &&& mem.contains_range(avail, 2)
            &&& out.mem.contains_range(used, 8)
            &&& out.mem.value::<u32>(used) == mem.value::<u16>(avail)
            &&& out.mem.value::<u32>(used + 4) == transfer_len(
                disk.len(),
                req.sector,
                req.data_len,
            )
        }),
{
    let reqs = dev.spec_plan_notify(mem, disk.len(), 0)->Ok_0;
    lemma_notify_plan(dev, mem, disk.len(), 0);
    lemma_used_ring_holds_requests(dev, mem, disk, reqs, k);
    let at = dev.spec_advanced_by(k as nat);
    assert(at.spec_fetch(mem) == Ok::<BlockRequest, Fault>(reqs[k]));
    reveal(VirtioBlk::spec_fetch);
    assert(at.requestq_next_avail == dev.requestq_next_avail + k);
    vstd::arithmetic::div_mod::lemma_small_mod(
        at.requestq_next_avail as nat,
        at.requestq_size as nat,
    );
    assert(at.spec_slot() == dev.requestq_next_avail + k);
}

/// A read transfers at least one byte exactly when its buffer is not empty
/// and its sector begins before the end of the disk, and it never transfers
/// more than its buffer holds or the disk has left.
pub proof fn lemma_transfer_len_bounds(disk_len: nat, sector: u64, data_len: u32)
    ensures
        transfer_len(disk_len, sector, data_len) > 0 <==> data_len > 0 && sector * 512 < disk_len,
        transfer_len(disk_len, sector, data_len) <= data_len,
        sector * 512 + transfer_len(disk_len, sector, data_len) <= disk_len || transfer_len(
            disk_len,
            sector,
            data_len,
        ) == 0,
{
}

} // verus!
