//! Core of a type-1 hypervisor for a single 64-bit RISC-V guest: the guest's
//! register file, its memory regions, the G-stage page table, the trap
//! dispatcher and the device models the guest talks to.

pub mod allocator;
pub mod device_tree;
pub mod fault;
pub mod guest_memory;
pub mod guest_page_table;
pub mod linux_loader;
pub mod plic;
pub mod trap;
pub mod vcpu;
pub mod virtio_blk;
