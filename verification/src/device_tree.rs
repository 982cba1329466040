//! The device tree that describes the machine to the guest, written with
//! the `vm_fdt` crate.

use crate::linux_loader::{GUEST_BASE_ADDR, MEMORY_SIZE, PLIC_ADDR, VIRTIO_BLK_ADDR};
use vstd::prelude::*;
use vstd::utf8::encode_utf8;

verus! {

/// The devicetree writer of `vm_fdt`.
#[verifier::external_type_specification]
#[verifier::external_body]
pub struct ExFdtWriter(vm_fdt::FdtWriter);

/// The handle of a node that is open in a devicetree writer.
#[verifier::external_type_specification]
#[verifier::external_body]
pub struct ExFdtWriterNode(vm_fdt::FdtWriterNode);

/// Why a devicetree writer refused a call.
#[verifier::external_type_specification]
#[verifier::external_body]
pub struct ExFdtError(vm_fdt::Error);

/// One thing that a devicetree writer was given.
pub enum FdtItem {
    /// A reserved range of physical memory: address and size.
    MemoryReservation(u64, u64),
    /// The physical id of the boot CPU, where one was set.
    BootCpu(u32),
    /// The start of a node with this name.
    BeginNode(Seq<char>),
    /// The end of the node that was begun last and not ended yet.
    EndNode,
    /// A property of the node that is open, with its name and its value.
    Property(Seq<char>, Seq<u8>),
}

/// What a writer holds: the memory reservations it was made with, the boot
/// CPU if one was set, then the nodes and properties in the order in which
/// they were written.
pub uninterp spec fn fdt_written(writer: vm_fdt::FdtWriter) -> Seq<FdtItem>;

/// The devicetree blob for `items`.
pub uninterp spec fn fdt_blob(items: Seq<FdtItem>) -> Seq<u8>;

/// Number of nodes of a writer that were begun and not ended yet.
pub uninterp spec fn fdt_depth(writer: vm_fdt::FdtWriter) -> nat;

/// A node of the writer was ended and none was begun since.
pub uninterp spec fn fdt_node_ended(writer: vm_fdt::FdtWriter) -> bool;

/// The values that the writer was asked to use as phandles, whether it
/// then wrote the property or not.
pub uninterp spec fn fdt_phandles(writer: vm_fdt::FdtWriter) -> Set<u32>;

/// Number of bytes that the writer holds: its structure block with header
/// and memory reservations, and its strings block.
pub uninterp spec fn fdt_size(writer: vm_fdt::FdtWriter) -> nat;

/// The depth at which the node of this handle was begun: the number of open
/// nodes of its writer right after.
pub uninterp spec fn fdt_node_depth(node: vm_fdt::FdtWriterNode) -> nat;

/// `FdtWriter::begin_node` takes `name` as the name of a node: it holds no
/// NUL and is formed as a node name has to be.
pub uninterp spec fn fdt_accepts_node_name(name: Seq<char>) -> bool;

/// `FdtWriter::property` takes `name` as the name of a property: it holds
/// no NUL and is formed as a property name has to be.
pub uninterp spec fn fdt_accepts_property_name(name: Seq<char>) -> bool;

/// What the calls on a writer go by, besides its size.
pub struct WriterView {
    pub items: Seq<FdtItem>,
    pub depth: nat,
    pub node_ended: bool,
    pub phandles: Set<u32>,
}

/// What `writer` holds and where it stands.
pub open spec fn writer_view(writer: vm_fdt::FdtWriter) -> WriterView {
    WriterView {
        items: fdt_written(writer),
        depth: fdt_depth(writer),
        node_ended: fdt_node_ended(writer),
        phandles: fdt_phandles(writer),
    }
}

/// The writer takes a property named `name` where it stands: a node is
/// open, none was ended since the last was begun, and the name is taken.
pub open spec fn takes_property(view: WriterView, name: Seq<char>) -> bool {
    !view.node_ended && view.depth > 0 && fdt_accepts_property_name(name)
}

/// The writer has room for a property whose name has `name_len` characters
/// and whose value has `value_len` bytes: with 16 bytes for the property
/// and at most 4 for each character of the name, it stays below 2^32 bytes.
pub open spec fn has_room(writer: vm_fdt::FdtWriter, name_len: nat, value_len: nat) -> bool {
    fdt_size(writer) + 16 + 4 * name_len + value_len <= u32::MAX
}

/// A writer that holds nothing, with no node open.
pub open spec fn empty_view() -> WriterView {
    WriterView { items: Seq::empty(), depth: 0, node_ended: false, phandles: Set::empty() }
}

/// The writer after it began a node named `name`.
pub open spec fn with_node_begun(view: WriterView, name: Seq<char>) -> WriterView {
    WriterView {
        items: view.items.push(FdtItem::BeginNode(name)),
        depth: view.depth + 1,
        node_ended: false,
        ..view
    }
}

/// The writer after it ended a node.
pub open spec fn with_node_ended(view: WriterView) -> WriterView {
    WriterView {
        items: view.items.push(FdtItem::EndNode),
        depth: (view.depth - 1) as nat,
        node_ended: true,
        ..view
    }
}

/// The writer after it was asked for the phandle `value`.
pub open spec fn with_phandle_seen(view: WriterView, value: u32) -> WriterView {
    WriterView { phandles: view.phandles.insert(value), ..view }
}

/// The writer after it wrote `item`.
pub open spec fn with_item(view: WriterView, item: FdtItem) -> WriterView {
    WriterView { items: view.items.push(item), ..view }
}

/// `text` holds no NUL.
pub open spec fn no_nul(text: Seq<char>) -> bool {
    forall|i: int| 0 <= i < text.len() ==> text[i] != '\0'
}

/// The four bytes of `value`, high byte first.
pub open spec fn be_u32(value: u32) -> Seq<u8> {
    seq![
        (value >> 24) as u8,
        ((value >> 16) & 0xff) as u8,
        ((value >> 8) & 0xff) as u8,
        (value & 0xff) as u8,
    ]
}

/// The eight bytes of `value`, high byte first.
pub open spec fn be_u64(value: u64) -> Seq<u8> {
    be_u32((value >> 32) as u32) + be_u32((value & 0xffff_ffff) as u32)
}

/// The bytes of `cells`, one after the other, each high byte first.
pub open spec fn be_u32_cells(cells: Seq<u32>) -> Seq<u8>
    decreases cells.len(),
{
    if cells.len() == 0 {
        Seq::empty()
    } else {
        be_u32_cells(cells.drop_last()) + be_u32(cells.last())
    }
}

/// The bytes of `cells`, one after the other, each high byte first.
pub open spec fn be_u64_cells(cells: Seq<u64>) -> Seq<u8>
    decreases cells.len(),
{
    if cells.len() == 0 {
        Seq::empty()
    } else {
        be_u64_cells(cells.drop_last()) + be_u64(cells.last())
    }
}

/// The value of a string property: the text in UTF-8 and a NUL byte.
pub open spec fn string_value(text: Seq<char>) -> Seq<u8> {
    encode_utf8(text).push(0u8)
}

/// The name of the property that holds a node's phandle.
pub open spec fn phandle_name() -> Seq<char> {
    "phandle"@
}

/// `FdtWriter::new`: it always gives a writer, without memory reservations,
/// which holds nothing but the 56 bytes of header and empty reservation
/// map, and in which no node is open.
#[verifier::external_body]
fn fdt_new() -> (r: Result<vm_fdt::FdtWriter, vm_fdt::Error>)
    ensures
        r is Ok,
        r matches Ok(writer) ==> fdt_size(writer) == 56 && writer_view(writer) == empty_view(),
{
    vm_fdt::FdtWriter::new()
}

/// `FdtWriter::begin_node`: it succeeds exactly when fewer than 64 nodes
/// are open and the name is taken. The writer then holds the start of a
/// node named `name` after what it held, one more node is open, and the
/// handle is of that depth. Where it fails, the writer is as it was.
#[verifier::external_body]
fn fdt_begin_node(writer: &mut vm_fdt::FdtWriter, name: &str) -> (r: Result<
    vm_fdt::FdtWriterNode,
    vm_fdt::Error,
>)
    ensures
        r is Ok ==> fdt_depth(*old(writer)) + 1 <= 64 && fdt_accepts_node_name(name@),
        fdt_depth(*old(writer)) + 1 <= 64 && fdt_accepts_node_name(name@) ==> r is Ok,
        r matches Ok(node) ==> fdt_node_depth(node) == fdt_depth(*old(writer)) + 1,
        r is Ok ==> writer_view(*final(writer)) == with_node_begun(
            writer_view(*old(writer)),
            name@,
        ),
        r is Err ==> writer_view(*final(writer)) == writer_view(*old(writer)),
        fdt_size(*final(writer)) <= fdt_size(*old(writer)) + 8 + 4 * name@.len(),
{
    writer.begin_node(name)
}

/// `FdtWriter::end_node`: it succeeds exactly when the handle is of the
/// depth at which the writer stands. The writer then holds the end of a
/// node after what it held, and one node less is open. Where it fails,
/// the writer is as it was.
#[verifier::external_body]
fn fdt_end_node(writer: &mut vm_fdt::FdtWriter, node: vm_fdt::FdtWriterNode) -> (r: Result<
    (),
    vm_fdt::Error,
>)
    ensures
        r is Ok <==> fdt_node_depth(node) == fdt_depth(*old(writer)),
        r is Ok ==> writer_view(*final(writer)) == with_node_ended(writer_view(*old(writer))),
        r is Err ==> writer_view(*final(writer)) == writer_view(*old(writer)),
        fdt_size(*final(writer)) <= fdt_size(*old(writer)) + 4,
{
    writer.end_node(node)
}

/// `FdtWriter::property_string`: it succeeds only where the writer takes
/// the property and `value` holds no NUL, and it does succeed there if the
/// writer has room. The writer then holds a property `name` whose value is
/// `value` in UTF-8 and a NUL byte. Where it fails, it holds what it held.
#[verifier::external_body]
fn fdt_property_string(writer: &mut vm_fdt::FdtWriter, name: &str, value: &str) -> (r: Result<
    (),
    vm_fdt::Error,
>)
    ensures
        r is Ok ==> !fdt_node_ended(*old(writer)) && fdt_depth(*old(writer)) > 0
            && fdt_accepts_property_name(name@) && no_nul(value@),
        takes_property(writer_view(*old(writer)), name@) && no_nul(value@) && has_room(
            *old(writer),
            name@.len(),
            4 * value@.len() + 1,
        ) ==> r is Ok,
        r is Ok ==> writer_view(*final(writer)) == with_item(
                writer_view(*old(writer)),
                FdtItem::Property(name@, string_value(value@)),
            ),
        r is Err ==> writer_view(*final(writer)) == writer_view(*old(writer)),
        fdt_size(*final(writer)) <= fdt_size(*old(writer)) + 16 + 4 * name@.len() + 4
            * value@.len() + 1,
{
    writer.property_string(name, value)
}

/// `FdtWriter::property_u32`: it succeeds only where the writer takes the
/// property, and it does succeed there if the writer has room. The writer
/// then holds a property `name` whose value is the four bytes of `value`,
/// high byte first. Where it fails, it holds what it held.
#[verifier::external_body]
fn fdt_property_u32(writer: &mut vm_fdt::FdtWriter, name: &str, value: u32) -> (r: Result<
    (),
    vm_fdt::Error,
>)
    ensures
        r is Ok ==> !fdt_node_ended(*old(writer)) && fdt_depth(*old(writer)) > 0
            && fdt_accepts_property_name(name@),
        takes_property(writer_view(*old(writer)), name@) && has_room(
            *old(writer),
            name@.len(),
            4,
        ) ==> r is Ok,
        r is Ok ==> writer_view(*final(writer)) == with_item(
            writer_view(*old(writer)),
            FdtItem::Property(name@, be_u32(value)),
        ),
        r is Err ==> writer_view(*final(writer)) == writer_view(*old(writer)),
        fdt_size(*final(writer)) <= fdt_size(*old(writer)) + 16 + 4 * name@.len() + 4,
{
    writer.property_u32(name, value)
}

/// `FdtWriter::property_array_u32`: it succeeds only where the writer takes
/// the property, and it does succeed there if the writer has room. The
/// writer then holds a property `name` whose value is the cells one after
/// the other, each high byte first. Where it fails, it holds what it held.
#[verifier::external_body]
fn fdt_property_array_u32(writer: &mut vm_fdt::FdtWriter, name: &str, cells: &[u32]) -> (r: Result<
    (),
    vm_fdt::Error,
>)
    ensures
        r is Ok ==> !fdt_node_ended(*old(writer)) && fdt_depth(*old(writer)) > 0
            && fdt_accepts_property_name(name@),
        takes_property(writer_view(*old(writer)), name@) && has_room(
            *old(writer),
            name@.len(),
            4 * cells@.len(),
        ) ==> r is Ok,
        r is Ok ==> writer_view(*final(writer)) == with_item(
            writer_view(*old(writer)),
            FdtItem::Property(name@, be_u32_cells(cells@)),
        ),
        r is Err ==> writer_view(*final(writer)) == writer_view(*old(writer)),
        fdt_size(*final(writer)) <= fdt_size(*old(writer)) + 16 + 4 * name@.len() + 4
            * cells@.len(),
{
    writer.property_array_u32(name, cells)
}

/// `FdtWriter::property_array_u64`: it succeeds only where the writer takes
/// the property, and it does succeed there if the writer has room. The
/// writer then holds a property `name` whose value is the cells one after
/// the other, each high byte first. Where it fails, it holds what it held.
#[verifier::external_body]
fn fdt_property_array_u64(writer: &mut vm_fdt::FdtWriter, name: &str, cells: &[u64]) -> (r: Result<
    (),
    vm_fdt::Error,
>)
    ensures
        r is Ok ==> !fdt_node_ended(*old(writer)) && fdt_depth(*old(writer)) > 0
            && fdt_accepts_property_name(name@),
        takes_property(writer_view(*old(writer)), name@) && has_room(
            *old(writer),
            name@.len(),
            8 * cells@.len(),
        ) ==> r is Ok,
        r is Ok ==> writer_view(*final(writer)) == with_item(
            writer_view(*old(writer)),
            FdtItem::Property(name@, be_u64_cells(cells@)),
        ),
        r is Err ==> writer_view(*final(writer)) == writer_view(*old(writer)),
        fdt_size(*final(writer)) <= fdt_size(*old(writer)) + 16 + 4 * name@.len() + 8
            * cells@.len(),
{
    writer.property_array_u64(name, cells)
}

/// `FdtWriter::property_null`: it succeeds only where the writer takes the
/// property, and it does succeed there if the writer has room. The writer
/// then holds a property `name` with an empty value. Where it fails, it
/// holds what it held.
#[verifier::external_body]
fn fdt_property_null(writer: &mut vm_fdt::FdtWriter, name: &str) -> (r: Result<(), vm_fdt::Error>)
    ensures
        r is Ok ==> !fdt_node_ended(*old(writer)) && fdt_depth(*old(writer)) > 0
            && fdt_accepts_property_name(name@),
        takes_property(writer_view(*old(writer)), name@) && has_room(
            *old(writer),
            name@.len(),
            0,
        ) ==> r is Ok,
        r is Ok ==> writer_view(*final(writer)) == with_item(
            writer_view(*old(writer)),
            FdtItem::Property(name@, Seq::<u8>::empty()),
        ),
        r is Err ==> writer_view(*final(writer)) == writer_view(*old(writer)),
        fdt_size(*final(writer)) <= fdt_size(*old(writer)) + 16 + 4 * name@.len(),
{
    writer.property_null(name)
}

/// `FdtWriter::property_phandle`: it succeeds only where `value` was not
/// asked for before and the writer takes a property named `phandle`, and
/// it does succeed there if the writer has room. The writer then holds a
/// property `phandle` whose value is the four bytes of `value`, high byte
/// first. Where it fails, it holds what it held. Either way it remembers
/// that `value` was asked for.
#[verifier::external_body]
fn fdt_property_phandle(writer: &mut vm_fdt::FdtWriter, value: u32) -> (r: Result<
    (),
    vm_fdt::Error,
>)
    ensures
        r is Ok ==> !fdt_phandles(*old(writer)).contains(value) && !fdt_node_ended(*old(writer))
            && fdt_depth(*old(writer)) > 0 && fdt_accepts_property_name(phandle_name()),
        !fdt_phandles(*old(writer)).contains(value) && takes_property(
            writer_view(*old(writer)),
            phandle_name(),
        ) && has_room(*old(writer), 7, 4) ==> r is Ok,
        r is Ok ==> writer_view(*final(writer)) == with_item(
            with_phandle_seen(writer_view(*old(writer)), value),
            FdtItem::Property(phandle_name(), be_u32(value)),
        ),
        r is Err ==> writer_view(*final(writer)) == with_phandle_seen(
            writer_view(*old(writer)),
            value,
        ),
        fdt_size(*final(writer)) <= fdt_size(*old(writer)) + 16 + 4 * 7 + 4,
{
    writer.property_phandle(value)
}

/// `FdtWriter::finish`: it succeeds only where no node is open, and it does
/// succeed there if the writer's bytes and the four of the end mark stay
/// below 2^32. The bytes are then the devicetree blob for what the writer
/// holds.
#[verifier::external_body]
fn fdt_finish(writer: vm_fdt::FdtWriter) -> (r: Result<Vec<u8>, vm_fdt::Error>)
    ensures
        r is Ok ==> fdt_depth(writer) == 0,
        fdt_depth(writer) == 0 && fdt_size(writer) + 4 <= u32::MAX ==> r is Ok,
        r matches Ok(blob) ==> blob@ == fdt_blob(fdt_written(writer)),
{
    writer.finish()
}

/// The device tree of the guest: a `riscv-virtio` machine with its boot
/// arguments, its RAM, one `rv64imafdc` CPU with an interrupt controller of
/// its own, the platform interrupt controller and the block device.
pub open spec fn spec_device_tree() -> Seq<FdtItem> {
    Seq::<FdtItem>::empty()
        .push(FdtItem::BeginNode(""@))
        .push(FdtItem::Property("compatible"@, string_value("riscv-virtio"@)))
        .push(FdtItem::Property("#address-cells"@, be_u32(0x2)))
        .push(FdtItem::Property("#size-cells"@, be_u32(0x2)))
        .push(FdtItem::BeginNode("chosen"@))
        .push(
            FdtItem::Property(
                "bootargs"@,
                string_value("console=hvc earlycon=sbi panic=-1 root=/dev/vda init=/bin/catsay"@),
            ),
        )
        .push(FdtItem::EndNode)
        .push(FdtItem::BeginNode("memory@2147483648"@))
        .push(FdtItem::Property("device_type"@, string_value("memory"@)))
        .push(FdtItem::Property("reg"@, be_u64_cells(seq![GUEST_BASE_ADDR, MEMORY_SIZE as u64])))
        .push(FdtItem::EndNode)
        .push(FdtItem::BeginNode("cpus"@))
        .push(FdtItem::Property("#address-cells"@, be_u32(0x1)))
        .push(FdtItem::Property("#size-cells"@, be_u32(0x0)))
        .push(FdtItem::Property("timebase-frequency"@, be_u32(10000000)))
        .push(FdtItem::BeginNode("cpu@0"@))
        .push(FdtItem::Property("device_type"@, string_value("cpu"@)))
        .push(FdtItem::Property("compatible"@, string_value("riscv"@)))
        .push(FdtItem::Property("reg"@, be_u32(0)))
        .push(FdtItem::Property("status"@, string_value("okay"@)))
        .push(FdtItem::Property("mmu-type"@, string_value("riscv,sv48"@)))
        .push(FdtItem::Property("riscv,isa"@, string_value("rv64imafdc"@)))
        .push(FdtItem::BeginNode("interrupt-controller"@))
        .push(FdtItem::Property("#interrupt-cells"@, be_u32(1)))
        .push(FdtItem::Property("interrupt-controller"@, Seq::<u8>::empty()))
        .push(FdtItem::Property("compatible"@, string_value("riscv,cpu-intc"@)))
        .push(FdtItem::Property(phandle_name(), be_u32(1)))
        .push(FdtItem::EndNode)
        .push(FdtItem::EndNode)
        .push(FdtItem::EndNode)
        .push(FdtItem::BeginNode("plic@c000000"@))
        .push(FdtItem::Property("compatible"@, string_value("riscv,plic0"@)))
        .push(FdtItem::Property("#interrupt-cells"@, be_u32(1)))
        .push(FdtItem::Property("interrupt-controller"@, Seq::<u8>::empty()))
        .push(FdtItem::Property("reg"@, be_u64_cells(seq![PLIC_ADDR, 0x400_0000])))
        .push(FdtItem::Property("riscv,ndev"@, be_u32(3)))
        .push(FdtItem::Property("interrupts-extended"@, be_u32_cells(seq![1, 11, 1, 9])))
        .push(FdtItem::Property(phandle_name(), be_u32(2)))
        .push(FdtItem::EndNode)
        .push(FdtItem::BeginNode("virtio_mmio@10000000"@))
        .push(FdtItem::Property("compatible"@, string_value("virtio,mmio"@)))
        .push(FdtItem::Property("reg"@, be_u64_cells(seq![VIRTIO_BLK_ADDR, 0x1000])))
        .push(FdtItem::Property("interrupt-parent"@, be_u32(2)))
        .push(FdtItem::Property("interrupts"@, be_u32_cells(seq![1])))
        .push(FdtItem::EndNode)
        .push(FdtItem::EndNode)
}

/// The writer takes every name of a node and of a property in the device
/// tree of the guest.
pub open spec fn spec_names_accepted() -> bool {
    &&& fdt_accepts_node_name(""@)
    &&& fdt_accepts_node_name("chosen"@)
    &&& fdt_accepts_node_name("memory@2147483648"@)
    &&& fdt_accepts_node_name("cpus"@)
    &&& fdt_accepts_node_name("cpu@0"@)
    &&& fdt_accepts_node_name("interrupt-controller"@)
    &&& fdt_accepts_node_name("plic@c000000"@)
    &&& fdt_accepts_node_name("virtio_mmio@10000000"@)
    &&& fdt_accepts_property_name("compatible"@)
    &&& fdt_accepts_property_name("#address-cells"@)
    &&& fdt_accepts_property_name("#size-cells"@)
    &&& fdt_accepts_property_name("bootargs"@)
    &&& fdt_accepts_property_name("device_type"@)
    &&& fdt_accepts_property_name("reg"@)
    &&& fdt_accepts_property_name("timebase-frequency"@)
    &&& fdt_accepts_property_name("status"@)
    &&& fdt_accepts_property_name("mmu-type"@)
    &&& fdt_accepts_property_name("riscv,isa"@)
    &&& fdt_accepts_property_name("#interrupt-cells"@)
    &&& fdt_accepts_property_name("interrupt-controller"@)
    &&& fdt_accepts_property_name("riscv,ndev"@)
    &&& fdt_accepts_property_name("interrupts-extended"@)
    &&& fdt_accepts_property_name("interrupt-parent"@)
    &&& fdt_accepts_property_name("interrupts"@)
    &&& fdt_accepts_property_name(phandle_name())
}

/// Writes the device tree of the guest and returns its blob. It succeeds
/// exactly when the writer takes the names in the tree; the error of the
/// writer is handed on as it is.
#[verifier::rlimit(50)]
pub fn build_device_tree() -> (r: Result<Vec<u8>, vm_fdt::Error>)
    ensures
        r is Ok <==> spec_names_accepted(),
        r matches Ok(blob) ==> blob@ == fdt_blob(spec_device_tree()),
{
    proof {
        reveal_strlit("chosen");
        reveal_strlit("memory@2147483648");
        reveal_strlit("cpus");
        reveal_strlit("cpu@0");
        reveal_strlit("interrupt-controller");
        reveal_strlit("plic@c000000");
        reveal_strlit("virtio_mmio@10000000");
        reveal_strlit("compatible");
        reveal_strlit("#address-cells");
        reveal_strlit("#size-cells");
        reveal_strlit("bootargs");
        reveal_strlit("device_type");
        reveal_strlit("reg");
        reveal_strlit("timebase-frequency");
        reveal_strlit("status");
        reveal_strlit("mmu-type");
        reveal_strlit("riscv,isa");
        reveal_strlit("#interrupt-cells");
        reveal_strlit("interrupt-controller");
        reveal_strlit("riscv,ndev");
        reveal_strlit("interrupts-extended");
        reveal_strlit("interrupt-parent");
        reveal_strlit("interrupts");
        reveal_strlit("riscv-virtio");
        reveal_strlit("console=hvc earlycon=sbi panic=-1 root=/dev/vda init=/bin/catsay");
        reveal_strlit("memory");
        reveal_strlit("cpu");
        reveal_strlit("riscv");
        reveal_strlit("okay");
        reveal_strlit("riscv,sv48");
        reveal_strlit("rv64imafdc");
        reveal_strlit("riscv,cpu-intc");
        reveal_strlit("riscv,plic0");
        reveal_strlit("virtio,mmio");
        reveal_strlit("");
        assert(no_nul("riscv-virtio"@));
        assert(no_nul("console=hvc earlycon=sbi panic=-1 root=/dev/vda init=/bin/catsay"@));
        assert(no_nul("memory"@));
        assert(no_nul("cpu"@));
        assert(no_nul("riscv"@));
        assert(no_nul("okay"@));
        assert(no_nul("riscv,sv48"@));
        assert(no_nul("rv64imafdc"@));
        assert(no_nul("riscv,cpu-intc"@));
        assert(no_nul("riscv,plic0"@));
        assert(no_nul("virtio,mmio"@));
    }
    let mut fdt = fdt_new()?;
    let root_node = fdt_begin_node(&mut fdt, "")?;
    assert(fdt_size(fdt) <= 64);
    fdt_property_string(&mut fdt, "compatible", "riscv-virtio")?;
    assert(fdt_size(fdt) <= 169);
    fdt_property_u32(&mut fdt, "#address-cells", 0x2)?;
    assert(fdt_size(fdt) <= 245);
    fdt_property_u32(&mut fdt, "#size-cells", 0x2)?;
    assert(fdt_size(fdt) <= 309);
    let chosen_node = fdt_begin_node(&mut fdt, "chosen")?;
    assert(fdt_size(fdt) <= 341);
    fdt_property_string(
        &mut fdt,
        "bootargs",
        "console=hvc earlycon=sbi panic=-1 root=/dev/vda init=/bin/catsay",
    )?;
    assert(fdt_size(fdt) <= 646);
    fdt_end_node(&mut fdt, chosen_node)?;
    assert(fdt_size(fdt) <= 650);
    let memory_node = fdt_begin_node(&mut fdt, "memory@2147483648")?;
    assert(fdt_size(fdt) <= 726);
    fdt_property_string(&mut fdt, "device_type", "memory")?;
    assert(fdt_size(fdt) <= 811);
    let cells: [u64; 2] = [GUEST_BASE_ADDR, MEMORY_SIZE as u64];
    assert(cells@ =~= seq![GUEST_BASE_ADDR, MEMORY_SIZE as u64]);
    fdt_property_array_u64(&mut fdt, "reg", cells.as_slice())?;
    assert(fdt_size(fdt) <= 855);
    fdt_end_node(&mut fdt, memory_node)?;
    assert(fdt_size(fdt) <= 859);
    let cpus_node = fdt_begin_node(&mut fdt, "cpus")?;
    assert(fdt_size(fdt) <= 883);
    fdt_property_u32(&mut fdt, "#address-cells", 0x1)?;
    assert(fdt_size(fdt) <= 959);
    fdt_property_u32(&mut fdt, "#size-cells", 0x0)?;
    assert(fdt_size(fdt) <= 1023);
    fdt_property_u32(&mut fdt, "timebase-frequency", 10000000)?;
    assert(fdt_size(fdt) <= 1115);
    let cpu_node = fdt_begin_node(&mut fdt, "cpu@0")?;
    assert(fdt_size(fdt) <= 1143);
    fdt_property_string(&mut fdt, "device_type", "cpu")?;
    assert(fdt_size(fdt) <= 1216);
    fdt_property_string(&mut fdt, "compatible", "riscv")?;
    assert(fdt_size(fdt) <= 1293);
    fdt_property_u32(&mut fdt, "reg", 0)?;
    assert(fdt_size(fdt) <= 1325);
    fdt_property_string(&mut fdt, "status", "okay")?;
    assert(fdt_size(fdt) <= 1382);
    fdt_property_string(&mut fdt, "mmu-type", "riscv,sv48")?;
    assert(fdt_size(fdt) <= 1471);
    fdt_property_string(&mut fdt, "riscv,isa", "rv64imafdc")?;
    assert(fdt_size(fdt) <= 1564);
    let intc_node = fdt_begin_node(&mut fdt, "interrupt-controller")?;
    assert(fdt_size(fdt) <= 1652);
    fdt_property_u32(&mut fdt, "#interrupt-cells", 1)?;
    assert(fdt_size(fdt) <= 1736);
    fdt_property_null(&mut fdt, "interrupt-controller")?;
    assert(fdt_size(fdt) <= 1832);
    fdt_property_string(&mut fdt, "compatible", "riscv,cpu-intc")?;
    assert(fdt_size(fdt) <= 1945);
    fdt_property_phandle(&mut fdt, 1)?;
    assert(fdt_size(fdt) <= 1993);
    fdt_end_node(&mut fdt, intc_node)?;
    assert(fdt_size(fdt) <= 1997);
    fdt_end_node(&mut fdt, cpu_node)?;
    assert(fdt_size(fdt) <= 2001);
    fdt_end_node(&mut fdt, cpus_node)?;
    assert(fdt_size(fdt) <= 2005);
    let plic_node = fdt_begin_node(&mut fdt, "plic@c000000")?;
    assert(fdt_size(fdt) <= 2061);
    fdt_property_string(&mut fdt, "compatible", "riscv,plic0")?;
    assert(fdt_size(fdt) <= 2162);
    fdt_property_u32(&mut fdt, "#interrupt-cells", 1)?;
    assert(fdt_size(fdt) <= 2246);
    fdt_property_null(&mut fdt, "interrupt-controller")?;
    assert(fdt_size(fdt) <= 2342);
    let cells: [u64; 2] = [PLIC_ADDR, 0x400_0000];
    assert(cells@ =~= seq![PLIC_ADDR, 0x400_0000]);
    fdt_property_array_u64(&mut fdt, "reg", cells.as_slice())?;
    assert(fdt_size(fdt) <= 2386);
    fdt_property_u32(&mut fdt, "riscv,ndev", 3)?;
    assert(fdt_size(fdt) <= 2446);
    let cells: [u32; 4] = [1, 11, 1, 9];
    assert(cells@ =~= seq![1, 11, 1, 9]);
    fdt_property_array_u32(&mut fdt, "interrupts-extended", cells.as_slice())?;
    assert(fdt_size(fdt) <= 2554);
    fdt_property_phandle(&mut fdt, 2)?;
    assert(fdt_size(fdt) <= 2602);
    fdt_end_node(&mut fdt, plic_node)?;
    assert(fdt_size(fdt) <= 2606);
    let virtio_node = fdt_begin_node(&mut fdt, "virtio_mmio@10000000")?;
    assert(fdt_size(fdt) <= 2694);
    fdt_property_string(&mut fdt, "compatible", "virtio,mmio")?;
    assert(fdt_size(fdt) <= 2795);
    let cells: [u64; 2] = [VIRTIO_BLK_ADDR, 0x1000];
    assert(cells@ =~= seq![VIRTIO_BLK_ADDR, 0x1000]);
    fdt_property_array_u64(&mut fdt, "reg", cells.as_slice())?;
    assert(fdt_size(fdt) <= 2839);
    fdt_property_u32(&mut fdt, "interrupt-parent", 2)?;
    assert(fdt_size(fdt) <= 2923);
    let cells: [u32; 1] = [1];
    assert(cells@ =~= seq![1]);
    fdt_property_array_u32(&mut fdt, "interrupts", cells.as_slice())?;
    assert(fdt_size(fdt) <= 2983);
    fdt_end_node(&mut fdt, virtio_node)?;
    assert(fdt_size(fdt) <= 2987);
    fdt_end_node(&mut fdt, root_node)?;
    assert(fdt_size(fdt) <= 2991);
    assert(fdt_written(fdt) == spec_device_tree());
    fdt_finish(fdt)
}

} // verus!
