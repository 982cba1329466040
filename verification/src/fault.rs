//! What can go wrong: faults while the guest runs and errors while it is
//! loaded.

use crate::guest_page_table::MapError;
use vstd::prelude::*;

verus! {

/// Why a trap or an access of the guest cannot be served. The functions that
/// tell a fault change nothing; the host stops the guest on one.
#[derive(Clone, Copy, Debug, PartialEq, Eq, Structural)]
pub enum Fault {
    /// `scause` names neither an environment call from VS-mode nor a guest-page fault.
    UnhandledTrap,
    /// A guest-page fault arrived without a transformed instruction in `htinst`.
    MissingInstruction,
    /// The guest made an SBI call that is not served.
    UnknownSbiCall,
    /// A device register was accessed with a width it does not support.
    BadAccessWidth,
    /// A read of a VirtIO register that does not exist.
    UnknownVirtioRead,
    /// A write to a VirtIO register that does not exist or cannot be written.
    UnknownVirtioWrite,
    /// The driver selected or notified a queue other than queue 0.
    UnsupportedQueue,
    /// The queue was notified while its size was zero.
    EmptyQueue,
    /// A block request other than a read.
    UnsupportedRequest,
    /// A guest-physical range that does not lie inside the memory region.
    OutOfRange,
    /// A guest-page fault at an address that is neither a device register
    /// nor guest RAM.
    UnmappedAccess,
}

/// Why the guest could not be loaded.
#[derive(Clone, Copy, Debug, PartialEq, Eq, Structural)]
pub enum LoadError {
    /// The kernel image is shorter than its header.
    TruncatedImage,
    /// The kernel image does not carry the magic number of a RISC-V image.
    BadMagic,
    /// The data is larger than the region it is loaded into.
    TooLarge,
    /// The page table refused a mapping.
    Mapping(MapError),
    /// The device tree could not be written.
    DeviceTree,
}

} // verus!
