//! The layout of the guest and the loader that puts kernel and device tree
//! in place.

use crate::allocator::PageAllocator;
use crate::device_tree::{build_device_tree, fdt_blob, spec_device_tree, spec_names_accepted};
use crate::fault::LoadError;
use crate::guest_memory::{le_u32, le_u64, GuestData, GuestMemory, RegionLoad};
use crate::guest_page_table::{
    in_run, GuestPageTable, TableView, Translation, HGATP_MODE_SV48X4,
};
use crate::vcpu::{VCpu, HOST_STACK_SIZE};
use vstd::prelude::*;
use vstd::slice::slice_subrange;

verus! {

/// Guest-physical address of the device tree blob.
pub const GUEST_DTB_ADDR: u64 = 0x7000_0000;

/// Guest-physical address of guest RAM, where the kernel image starts.
pub const GUEST_BASE_ADDR: u64 = 0x8000_0000;

/// Guest-physical address of the interrupt controller's registers.
pub const PLIC_ADDR: u64 = 0x0c00_0000;

/// First guest-physical address after the interrupt controller's registers.
pub const PLIC_END: u64 = 0x0c40_0000;

/// Guest-physical address of the block device's registers.
pub const VIRTIO_BLK_ADDR: u64 = 0x1000_0000;

/// First guest-physical address after the block device's registers.
pub const VIRTIO_BLK_END: u64 = 0x1000_1000;

/// Bytes of guest RAM.
pub const MEMORY_SIZE: usize = 0x400_0000;

/// Bytes reserved for the device tree blob.
pub const DTB_SIZE: usize = 0x1_0000;

/// What the field `magic2` of a RISC-V kernel image holds: `RSC\x05`.
pub const RISCV_IMAGE_MAGIC2: u32 = 0x05435352;

/// Permissions of guest RAM: read, write and execute.
pub const RAM_FLAGS: u64 = 0x0e;

/// Permissions of the device tree blob: read.
pub const DTB_FLAGS: u64 = 0x02;

/// The header that a RISC-V kernel image starts with.
#[derive(Clone, Copy, Debug, PartialEq, Eq, Structural)]
pub struct RiscvImageHeader {
    pub code0: u32,
    pub code1: u32,
    pub text_offset: u64,
    pub image_size: u64,
    pub flags: u64,
    pub version: u32,
    pub reserved1: u32,
    pub reserved2: u64,
    pub magic: u64,
    pub magic2: u32,
    pub reserved3: u32,
}

impl GuestData for RiscvImageHeader {
    open spec fn width() -> nat {
        64
    }

    open spec fn from_bytes(bytes: Seq<u8>) -> RiscvImageHeader {
        RiscvImageHeader {
            code0: le_u32(bytes.subrange(0, 4)),
            code1: le_u32(bytes.subrange(4, 8)),
            text_offset: le_u64(bytes.subrange(8, 16)),
            image_size: le_u64(bytes.subrange(16, 24)),
            flags: le_u64(bytes.subrange(24, 32)),
            version: le_u32(bytes.subrange(32, 36)),
            reserved1: le_u32(bytes.subrange(36, 40)),
            reserved2: le_u64(bytes.subrange(40, 48)),
            magic: le_u64(bytes.subrange(48, 56)),
            magic2: le_u32(bytes.subrange(56, 60)),
            reserved3: le_u32(bytes.subrange(60, 64)),
        }
    }

    fn byte_width() -> (n: usize) {
        64
    }

    fn decode(bytes: &[u8]) -> (value: RiscvImageHeader) {
        RiscvImageHeader {
            code0: u32::decode(slice_subrange(bytes, 0, 4)),
            code1: u32::decode(slice_subrange(bytes, 4, 8)),
            text_offset: u64::decode(slice_subrange(bytes, 8, 16)),
            image_size: u64::decode(slice_subrange(bytes, 16, 24)),
            flags: u64::decode(slice_subrange(bytes, 24, 32)),
            version: u32::decode(slice_subrange(bytes, 32, 36)),
            reserved1: u32::decode(slice_subrange(bytes, 36, 40)),
            reserved2: u64::decode(slice_subrange(bytes, 40, 48)),
            magic: u64::decode(slice_subrange(bytes, 48, 56)),
            magic2: u32::decode(slice_subrange(bytes, 56, 60)),
            reserved3: u32::decode(slice_subrange(bytes, 60, 64)),
        }
    }
}

/// The header of the kernel image `image`, or why it is no kernel image.
pub open spec fn spec_check_image(image: Seq<u8>) -> Result<RiscvImageHeader, LoadError> {
    if image.len() < 64 {
        Err(LoadError::TruncatedImage)
    } else if RiscvImageHeader::from_bytes(image.subrange(0, 64)).magic2 != RISCV_IMAGE_MAGIC2 {
        Err(LoadError::BadMagic)
    } else {
        Ok(RiscvImageHeader::from_bytes(image.subrange(0, 64)))
    }
}

/// Reads the header of the kernel image `image` and checks its magic number.
pub fn check_image(image: &[u8]) -> (r: Result<RiscvImageHeader, LoadError>)
    ensures
        r == spec_check_image(image@),
{
    if image.len() < 64 {
        return Err(LoadError::TruncatedImage);
    }
    let header = RiscvImageHeader::decode(slice_subrange(image, 0, 64));
    if header.magic2 != RISCV_IMAGE_MAGIC2 {
        return Err(LoadError::BadMagic);
    }
    Ok(header)
}

/// Loading the kernel image `image` into `ram`: the image goes to the start
/// of the region, and all of the region is mapped for reading, writing and
/// execution.
pub open spec fn spec_load_kernel<const RAM: usize>(
    ram: &GuestMemory<RAM>,
    table: TableView,
    image: Seq<u8>,
) -> RegionLoad {
    ram.spec_write_and_map(table, image, RAM_FLAGS)
}

/// Copies the kernel image `image` to the start of `ram` and maps all of
/// `ram` in `table` for reading, writing and execution. Returns the image's
/// header. The image has to be one that `check_image` accepts.
pub fn load_kernel<const RAM: usize>(
    table: &mut GuestPageTable,
    ram: &mut GuestMemory<RAM>,
    image: &[u8],
) -> (r: Result<RiscvImageHeader, LoadError>)
    requires
        old(table).wf(),
        old(ram).wf(),
        spec_check_image(image@) is Ok,
    ensures
        final(table).wf(),
        final(ram).wf(),
        final(table).spec_root() == old(table).spec_root(),
        final(ram).spec_host_base() == old(ram).spec_host_base(),
        ({
            let out = spec_load_kernel(old(ram), old(table)@, image@);
            &&& final(ram)@ == out.mem
            &&& final(table)@ == out.table
            &&& r == match out.error {
                Some(error) => Err::<RiscvImageHeader, LoadError>(error),
                None => spec_check_image(image@),
            }
        }),
{
    let header = RiscvImageHeader::decode(slice_subrange(image, 0, 64));
    ram.write_and_map(table, image, RAM_FLAGS)?;
    Ok(header)
}

/// Copies the device tree blob `blob` to the start of `dtb` and maps all of
/// `dtb` in `table` for reading.
pub fn load_device_tree<const DTB: usize>(
    table: &mut GuestPageTable,
    dtb: &mut GuestMemory<DTB>,
    blob: &[u8],
) -> (r: Result<(), LoadError>)
    requires
        old(table).wf(),
        old(dtb).wf(),
    ensures
        final(table).wf(),
        final(dtb).wf(),
        final(table).spec_root() == old(table).spec_root(),
        final(dtb).spec_host_base() == old(dtb).spec_host_base(),
        ({
            let out = old(dtb).spec_write_and_map(old(table)@, blob@, DTB_FLAGS);
            &&& final(dtb)@ == out.mem
            &&& final(table)@ == out.table
            &&& r == match out.error {
                Some(error) => Err::<(), LoadError>(error),
                None => Ok::<(), LoadError>(()),
            }
        }),
{
    dtb.write_and_map(table, blob, DTB_FLAGS)
}

/// Loads the guest: the kernel image `image` goes to `ram`, the device tree
/// of the guest is written and goes to `dtb`, and both regions are mapped
/// in `table`. Returns the image's header. The image has to be one that
/// `check_image` accepts. Where the kernel cannot be loaded, the device
/// tree is not written. The device tree is written exactly when the writer
/// takes the names in it; where it does not, `dtb` stays as it was.
pub fn load_linux_kernel<const RAM: usize, const DTB: usize>(
    table: &mut GuestPageTable,
    ram: &mut GuestMemory<RAM>,
    dtb: &mut GuestMemory<DTB>,
    image: &[u8],
) -> (r: Result<RiscvImageHeader, LoadError>)
    requires
        old(table).wf(),
        old(ram).wf(),
        old(dtb).wf(),
        spec_check_image(image@) is Ok,
    ensures
        final(table).wf(),
        final(ram).wf(),
        final(dtb).wf(),
        final(table).spec_root() == old(table).spec_root(),
        final(ram).spec_host_base() == old(ram).spec_host_base(),
        final(dtb).spec_host_base() == old(dtb).spec_host_base(),
        ({
            let kernel = spec_load_kernel(old(ram), old(table)@, image@);
            let tree = old(dtb).spec_write_and_map(
                kernel.table,
                fdt_blob(spec_device_tree()),
                DTB_FLAGS,
            );
            &&& final(ram)@ == kernel.mem
            &&& kernel.error matches Some(error) ==> {
                &&& r == Err::<RiscvImageHeader, LoadError>(error)
                &&& final(table)@ == kernel.table
                &&& final(dtb)@ == old(dtb)@
            }
            &&& kernel.error is None && spec_names_accepted() ==> {
                &&& final(table)@ == tree.table
                &&& final(dtb)@ == tree.mem
                &&& r == match tree.error {
                    Some(error) => Err::<RiscvImageHeader, LoadError>(error),
                    None => spec_check_image(image@),
                }
            }
            &&& kernel.error is None && !spec_names_accepted() ==> {
                &&& r == Err::<RiscvImageHeader, LoadError>(LoadError::DeviceTree)
                &&& final(table)@ == kernel.table
                &&& final(dtb)@ == old(dtb)@
            }
        }),
{
    let header = load_kernel(table, ram, image)?;
    let blob = match build_device_tree() {
        Ok(blob) => blob,
        Err(_) => { return Err(LoadError::DeviceTree); },
    };
    load_device_tree(table, dtb, blob.as_slice())?;
    Ok(header)
}

/// The registers with which the guest boots: it starts at the first byte of
/// RAM, `a0` holds the id of its one hart, which is 0, and `a1` the
/// guest-physical address of the device tree blob.
pub fn boot_vcpu(table: &GuestPageTable, alloc: &mut PageAllocator) -> (r: Option<VCpu>)
    requires
        old(alloc).wf(),
    ensures
        final(alloc).wf(),
        final(alloc).spec_end() == old(alloc).spec_end(),
        old(alloc).spec_free() >= HOST_STACK_SIZE ==> {
            &&& final(alloc).spec_next() == old(alloc).spec_next() + HOST_STACK_SIZE
            &&& r == Some(
                VCpu {
                    a0: 0,
                    a1: GUEST_DTB_ADDR,
                    ..VCpu::spec_new(
                        HGATP_MODE_SV48X4 | (table.spec_root() >> 12),
                        GUEST_BASE_ADDR,
                        (old(alloc).spec_next() + HOST_STACK_SIZE) as u64,
                    )
                },
            )
        },
        old(alloc).spec_free() < HOST_STACK_SIZE ==> r is None && final(alloc).spec_next()
            == old(alloc).spec_next(),
{
    match VCpu::new(table, GUEST_BASE_ADDR, alloc) {
        Some(vcpu) => {
            let mut vcpu = vcpu;
            vcpu.a0 = 0;
            vcpu.a1 = GUEST_DTB_ADDR;
            Some(vcpu)
        },
        None => None,
    }
}

/// A kernel image that `check_image` accepts and that fits RAM is loaded
/// whenever RAM and the region of the device tree can be mapped, lie apart,
/// and the writer takes the names in the device tree and gives a blob that
/// fits its region. RAM then begins with the image and keeps its other
/// bytes, every page of RAM leads to its page of the backing store for
/// reading, writing and execution, the region of the device tree begins
/// with the blob and is mapped for reading, and what was mapped before
/// stays mapped.
pub proof fn lemma_guest_loads<const RAM: usize, const DTB: usize>(
    ram: &GuestMemory<RAM>,
    dtb: &GuestMemory<DTB>,
    table: TableView,
    image: Seq<u8>,
)
    requires
        ram.wf(),
        dtb.wf(),
        spec_check_image(image) is Ok,
        image.len() <= RAM,
        ram.spec_mappable(table, RAM_FLAGS),
        dtb.spec_mappable(table, DTB_FLAGS),
        table.free_pages >= 3 * (GuestMemory::<RAM>::spec_page_count() / 512 + 2) + 3 * (
        GuestMemory::<DTB>::spec_page_count() / 512 + 2),
        ram@.base + 4096 * GuestMemory::<RAM>::spec_page_count() <= dtb@.base || dtb@.base + 4096
            * GuestMemory::<DTB>::spec_page_count() <= ram@.base,
    ensures
        ({
            let kernel = spec_load_kernel(ram, table, image);
            let blob = fdt_blob(spec_device_tree());
            let tree = dtb.spec_write_and_map(kernel.table, blob, DTB_FLAGS);
            &&& kernel.error is None
            &&& kernel.mem.read(ram@.base as int, image.len()) == image
            &&& forall|i: int| image.len() <= i < RAM ==> kernel.mem.bytes[i] == ram@.bytes[i]
            &&& blob.len() <= DTB ==> {
                &&& tree.error is None
                &&& tree.mem.read(dtb@.base as int, blob.len()) == blob
                &&& forall|key: u64|
                    in_run(key, ram@.base as int, GuestMemory::<RAM>::spec_page_count())
                        ==> #[trigger] tree.table.mapping.contains_key(key)
                        && tree.table.mapping[key] == (Translation {
                        host_addr: (ram.spec_host_base() + (key - ram@.base)) as u64,
                        flags: RAM_FLAGS,
                    })
                &&& forall|key: u64|
                    in_run(key, dtb@.base as int, GuestMemory::<DTB>::spec_page_count())
                        ==> #[trigger] tree.table.mapping.contains_key(key)
                        && tree.table.mapping[key] == (Translation {
                        host_addr: (dtb.spec_host_base() + (key - dtb@.base)) as u64,
                        flags: DTB_FLAGS,
                    })
                &&& forall|key: u64|
                    table.mapping.contains_key(key) ==> #[trigger] tree.table.mapping.contains_key(
                        key,
                    )
            }
        }),
{
    let kernel = spec_load_kernel(ram, table, image);
    let blob = fdt_blob(spec_device_tree());
    ram.lemma_write_and_map_goes_through(table, image, RAM_FLAGS);
    if blob.len() <= DTB {
        let ram_count = GuestMemory::<RAM>::spec_page_count();
        let dtb_count = GuestMemory::<DTB>::spec_page_count();
        assert forall|key: u64| in_run(key, dtb@.base as int, dtb_count) implies !in_run(
            key,
            ram@.base as int,
            ram_count,
        ) by {}
        assert(dtb.spec_mappable(kernel.table, DTB_FLAGS));
        dtb.lemma_write_and_map_goes_through(kernel.table, blob, DTB_FLAGS);
        let tree = dtb.spec_write_and_map(kernel.table, blob, DTB_FLAGS);
        assert forall|key: u64|
            in_run(
                key,
                ram@.base as int,
                ram_count,
            ) implies #[trigger] tree.table.mapping.contains_key(key) && tree.table.mapping[key]
            == (Translation {
            host_addr: (ram.spec_host_base() + (key - ram@.base)) as u64,
            flags: RAM_FLAGS,
        }) by {
            assert(kernel.table.mapping.contains_key(key));
            assert(!in_run(key, dtb@.base as int, dtb_count));
        }
    }
}

} // verus!
