//! Regions of guest-physical memory and the little-endian values in them.

use crate::fault::LoadError;
use crate::guest_page_table::{
    flags_are_valid, in_run, lemma_map_pages_goes_through, lemma_map_pages_maps_run, with_run,
    GuestPageTable, TableView, Translation, GUEST_ADDR_LIMIT, HOST_ADDR_LIMIT,
};
use vstd::prelude::*;
use vstd::slice::slice_subrange;

verus! {

/// What a memory region holds: the guest-physical address of its first byte
/// and its bytes in address order.
pub struct MemoryView {
    pub base: u64,
    pub bytes: Seq<u8>,
}

impl MemoryView {
    /// The `len` bytes from guest-physical address `addr` on lie inside the region.
    pub open spec fn contains_range(self, addr: int, len: nat) -> bool {
        self.base <= addr && addr + len <= self.base + self.bytes.len()
    }

    /// The `len` bytes stored from guest-physical address `addr` on.
    pub open spec fn read(self, addr: int, len: nat) -> Seq<u8> {
        self.bytes.subrange(addr - self.base, addr - self.base + len)
    }

    /// The region after `src` was stored from guest-physical address `addr` on.
    pub open spec fn write(self, addr: int, src: Seq<u8>) -> MemoryView {
        MemoryView {
            base: self.base,
            bytes: Seq::new(
                self.bytes.len(),
                |i: int|
                    if addr - self.base <= i < addr - self.base + src.len() {
                        src[i - (addr - self.base)]
                    } else {
                        self.bytes[i]
                    },
            ),
        }
    }

    /// The value of type `T` stored at guest-physical address `addr`.
    pub open spec fn value<T: GuestData>(self, addr: int) -> T {
        T::from_bytes(self.read(addr, T::width()))
    }
}

/// A region and a page table after data was loaded into the region.
pub struct RegionLoad {
    pub mem: MemoryView,
    pub table: TableView,
    /// Why the load stopped early, if it did.
    pub error: Option<LoadError>,
}

/// A value with a fixed little-endian layout in guest memory.
pub trait GuestData: Sized {
    /// The number of bytes the value occupies.
    spec fn width() -> nat;

    /// The value that `bytes` encode.
    spec fn from_bytes(bytes: Seq<u8>) -> Self;

    /// The number of bytes the value occupies.
    fn byte_width() -> (n: usize)
        ensures
            n == Self::width(),
    ;

    /// Decodes the value that `bytes` encode.
    fn decode(bytes: &[u8]) -> (value: Self)
        requires
            bytes@.len() == Self::width(),
        ensures
            value == Self::from_bytes(bytes@),
    ;
}

/// The 16-bit number that the first two bytes of `b` encode, low byte first.
pub open spec fn le_u16(b: Seq<u8>) -> u16 {
    (b[0] as u16) | (b[1] as u16) << 8
}

/// The 32-bit number that the first four bytes of `b` encode, low byte first.
pub open spec fn le_u32(b: Seq<u8>) -> u32 {
    (b[0] as u32) | (b[1] as u32) << 8 | (b[2] as u32) << 16 | (b[3] as u32) << 24
}

/// The 64-bit number that the first eight bytes of `b` encode, low byte first.
pub open spec fn le_u64(b: Seq<u8>) -> u64 {
    (b[0] as u64) | (b[1] as u64) << 8 | (b[2] as u64) << 16 | (b[3] as u64) << 24 | (b[4] as u64)
        << 32 | (b[5] as u64) << 40 | (b[6] as u64) << 48 | (b[7] as u64) << 56
}

/// The two bytes that encode `x`, low byte first.
pub open spec fn u16_le_bytes(x: u16) -> Seq<u8> {
    seq![(x & 0xff) as u8, (x >> 8) as u8]
}

/// The four bytes that encode `x`, low byte first.
pub open spec fn u32_le_bytes(x: u32) -> Seq<u8> {
    seq![(x & 0xff) as u8, ((x >> 8) & 0xff) as u8, ((x >> 16) & 0xff) as u8, (x >> 24) as u8]
}

impl GuestData for u8 {
    open spec fn width() -> nat {
        1
    }

    open spec fn from_bytes(bytes: Seq<u8>) -> u8 {
        bytes[0]
    }

    fn byte_width() -> (n: usize) {
        1
    }

    fn decode(bytes: &[u8]) -> (value: u8) {
        bytes[0]
    }
}

impl GuestData for u16 {
    open spec fn width() -> nat {
        2
    }

    open spec fn from_bytes(bytes: Seq<u8>) -> u16 {
        le_u16(bytes)
    }

    fn byte_width() -> (n: usize) {
        2
    }

    fn decode(bytes: &[u8]) -> (value: u16) {
        (bytes[0] as u16) | (bytes[1] as u16) << 8
    }
}

impl GuestData for u32 {
    open spec fn width() -> nat {
        4
    }

    open spec fn from_bytes(bytes: Seq<u8>) -> u32 {
        le_u32(bytes)
    }

    fn byte_width() -> (n: usize) {
        4
    }

    fn decode(bytes: &[u8]) -> (value: u32) {
        (bytes[0] as u32) | (bytes[1] as u32) << 8 | (bytes[2] as u32) << 16 | (bytes[3] as u32)
            << 24
    }
}

impl GuestData for u64 {
    open spec fn width() -> nat {
        8
    }

    open spec fn from_bytes(bytes: Seq<u8>) -> u64 {
        le_u64(bytes)
    }

    fn byte_width() -> (n: usize) {
        8
    }

    fn decode(bytes: &[u8]) -> (value: u64) {
        (bytes[0] as u64) | (bytes[1] as u64) << 8 | (bytes[2] as u64) << 16 | (bytes[3] as u64)
            << 24 | (bytes[4] as u64) << 32 | (bytes[5] as u64) << 40 | (bytes[6] as u64) << 48 | (
        bytes[7] as u64) << 56
    }
}

/// A region of guest-physical memory of `SIZE` bytes, kept in a backing
/// store that the host holds at `host_base`.
pub struct GuestMemory<const SIZE: usize> {
    data: Vec<u8>,
    guest_base: u64,
    host_base: u64,
}

impl<const SIZE: usize> View for GuestMemory<SIZE> {
    type V = MemoryView;

    closed spec fn view(&self) -> MemoryView {
        MemoryView { base: self.guest_base, bytes: self.data@ }
    }
}

impl<const SIZE: usize> GuestMemory<SIZE> {
    /// The host-physical address of the first byte of the backing store.
    pub closed spec fn spec_host_base(&self) -> u64 {
        self.host_base
    }

    /// The region holds `SIZE` bytes, its backing store starts on a page
    /// boundary, and neither address range wraps around.
    pub open spec fn wf(&self) -> bool {
        &&& self@.bytes.len() == SIZE
        &&& self@.base + SIZE <= u64::MAX
        &&& self.spec_host_base() + SIZE <= u64::MAX
        &&& self.spec_host_base() % 4096 == 0
    }

    /// A region of zeros at guest-physical address `guest_base` over the
    /// backing store `data`, which the host holds at `host_base` and which
    /// holds zeros.
    pub fn new(guest_base: u64, host_base: u64, data: Vec<u8>) -> (mem: Self)
        requires
            data@.len() == SIZE,
            forall|i: int| 0 <= i < data@.len() ==> data@[i] == 0,
            host_base % 4096 == 0,
            guest_base + SIZE <= u64::MAX,
            host_base + SIZE <= u64::MAX,
        ensures
            mem.wf(),
            mem@ == (MemoryView { base: guest_base, bytes: Seq::new(SIZE as nat, |i: int| 0u8) }),
            mem.spec_host_base() == host_base,
    {
        assert(data@ =~= Seq::new(SIZE as nat, |i: int| 0u8));
        Self { data, guest_base, host_base }
    }

    /// The guest-physical address of the first byte.
    pub fn guest_base(&self) -> (base: u64)
        ensures
            base == self@.base,
    {
        self.guest_base
    }

    /// The host-physical address of the first byte of the backing store.
    pub fn host_base(&self) -> (base: u64)
        ensures
            base == self.spec_host_base(),
    {
        self.host_base
    }

    /// Whether the byte at guest-physical address `guest_addr` lies inside
    /// the region.
    pub fn contains(&self, guest_addr: u64) -> (inside: bool)
        requires
            self.wf(),
        ensures
            inside == self@.contains_range(guest_addr as int, 1),
    {
        self.offset_of(guest_addr, 1).is_some()
    }

    /// Whether the `len` bytes from guest-physical address `guest_addr` on
    /// lie inside the region.
    pub fn contains_range(&self, guest_addr: u64, len: usize) -> (inside: bool)
        requires
            self.wf(),
        ensures
            inside == self@.contains_range(guest_addr as int, len as nat),
    {
        self.offset_of(guest_addr, len).is_some()
    }

    /// The offset of `guest_addr` in the region, if `len` bytes from there on
    /// lie inside it.
    fn offset_of(&self, guest_addr: u64, len: usize) -> (r: Option<usize>)
        requires
            self.wf(),
        ensures
            self@.contains_range(guest_addr as int, len as nat) ==> r == Some(
                (guest_addr - self@.base) as usize,
            ),
            !self@.contains_range(guest_addr as int, len as nat) ==> r is None,
    {
        if guest_addr < self.guest_base {
            return None;
        }
        let offset = guest_addr - self.guest_base;
        if offset > SIZE as u64 || len > SIZE - offset as usize {
            return None;
        }
        Some(offset as usize)
    }

    /// Number of pages that the region touches.
    pub open spec fn spec_page_count() -> nat {
        ((SIZE + 4095) / 4096) as nat
    }

    /// Copying `src` to the start of the region and mapping every page of
    /// the region in `table` with permissions `flags`.
    pub open spec fn spec_write_and_map(
        &self,
        table: TableView,
        src: Seq<u8>,
        flags: u64,
    ) -> RegionLoad {
        if src.len() > SIZE {
            RegionLoad { mem: self@, table, error: Some(LoadError::TooLarge) }
        } else {
            let out = table.map_pages(
                self@.base,
                self.spec_host_base(),
                flags,
                Self::spec_page_count(),
            );
            RegionLoad {
                mem: self@.write(self@.base as int, src),
                table: out.table,
                error: match out.error {
                    Some(error) => Some(LoadError::Mapping(error)),
                    None => None,
                },
            }
        }
    }

    /// Copies `src` to the start of the region and maps every page of the
    /// region, in `table`, to the page of the backing store that holds it,
    /// with permissions `flags`. Data that is larger than the region is
    /// refused and nothing changes. The first page that `table` refuses
    /// ends the mapping; the pages before it stay mapped.
    pub fn write_and_map(&mut self, table: &mut GuestPageTable, src: &[u8], flags: u64) -> (r:
        Result<(), LoadError>)
        requires
            old(self).wf(),
            old(table).wf(),
        ensures
            final(self).wf(),
            final(table).wf(),
            final(self).spec_host_base() == old(self).spec_host_base(),
            final(table).spec_root() == old(table).spec_root(),
            ({
                let out = old(self).spec_write_and_map(old(table)@, src@, flags);
                &&& final(self)@ == out.mem
                &&& final(table)@ == out.table
                &&& r == match out.error {
                    Some(error) => Err::<(), LoadError>(error),
                    None => Ok::<(), LoadError>(()),
                }
            }),
    {
        if src.len() > SIZE {
            return Err(LoadError::TooLarge);
        }
        self.write_bytes(self.guest_base, src);
        let ghost goal = old(table)@.map_pages(
            old(self)@.base,
            old(self).spec_host_base(),
            flags,
            Self::spec_page_count(),
        );
        let count: usize = (SIZE / 4096) + (if SIZE % 4096 != 0 {
            1usize
        } else {
            0usize
        });
        let mut i: usize = 0;
        while i < count
            invariant
                self.wf(),
                table.wf(),
                table.spec_root() == old(table).spec_root(),
                self.spec_host_base() == old(self).spec_host_base(),
                self@ == old(self)@.write(old(self)@.base as int, src@),
                src@.len() <= SIZE,
                count == Self::spec_page_count(),
                i <= count,
                goal == old(table)@.map_pages(
                    old(self)@.base,
                    old(self).spec_host_base(),
                    flags,
                    Self::spec_page_count(),
                ),
                goal == table@.map_pages(
                    (self@.base + 4096 * i) as u64,
                    (self.spec_host_base() + 4096 * i) as u64,
                    flags,
                    (count - i) as nat,
                ),
            decreases count - i,
        {
            let off: u64 = (i * 4096) as u64;
            match table.map(self.guest_base + off, self.host_base + off, flags) {
                Ok(()) => {},
                Err(error) => { return Err(LoadError::Mapping(error)); },
            }
            i += 1;
        }
        Ok(())
    }

    /// Copies `src` into the region from guest-physical address `guest_addr`
    /// on. The range has to lie inside the region.
    pub fn write_bytes(&mut self, guest_addr: u64, src: &[u8])
        requires
            old(self).wf(),
            old(self)@.contains_range(guest_addr as int, src@.len()),
        ensures
            final(self).wf(),
            final(self).spec_host_base() == old(self).spec_host_base(),
            final(self)@ == old(self)@.write(guest_addr as int, src@),
    {
        let offset: usize = (guest_addr - self.guest_base) as usize;
        let mut i: usize = 0;
        while i < src.len()
            invariant
                i <= src@.len(),
                offset + src@.len() <= SIZE,
                self.data@.len() == SIZE,
                self.guest_base == old(self).guest_base,
                self.host_base == old(self).host_base,
                forall|j: int|
                    0 <= j < SIZE ==> self.data@[j] == (if offset <= j < offset + i {
                        src@[j - offset]
                    } else {
                        old(self).data@[j]
                    }),
            decreases src@.len() - i,
        {
            self.data[offset + i] = src[i];
            i += 1;
        }
        assert(self@.bytes =~= old(self)@.write(guest_addr as int, src@).bytes);
    }

    /// Fills `dst` with the bytes stored from guest-physical address
    /// `guest_addr` on. The range has to lie inside the region.
    pub fn read_bytes(&self, guest_addr: u64, dst: &mut [u8])
        requires
            self.wf(),
            self@.contains_range(guest_addr as int, old(dst)@.len()),
        ensures
            final(dst)@ == self@.read(guest_addr as int, old(dst)@.len()),
    {
        let offset: usize = (guest_addr - self.guest_base) as usize;
        let n = dst.len();
        let mut i: usize = 0;
        while i < n
            invariant
                i <= n,
                n == dst@.len(),
                n == old(dst)@.len(),
                offset + n <= SIZE,
                self.data@.len() == SIZE,
                forall|j: int| 0 <= j < i ==> dst@[j] == self.data@[offset + j],
            decreases n - i,
        {
            dst[i] = self.data[offset + i];
            i += 1;
        }
        assert(dst@ =~= self@.read(guest_addr as int, n as nat));
    }

    /// Decodes the value of type `T` stored at guest-physical address
    /// `guest_addr`. The value has to lie inside the region.
    pub fn read<T: GuestData>(&self, guest_addr: u64) -> (value: T)
        requires
            self.wf(),
            self@.contains_range(guest_addr as int, T::width()),
        ensures
            value == self@.value::<T>(guest_addr as int),
    {
        let n = T::byte_width();
        let offset: usize = (guest_addr - self.guest_base) as usize;
        let bytes = slice_subrange(self.data.as_slice(), offset, offset + n);
        T::decode(bytes)
    }
}

/// Reading a range that was just written gives back the bytes written, and
/// the write leaves the region's place and size as they were.
pub proof fn lemma_read_after_write(mem: MemoryView, addr: int, src: Seq<u8>)
    requires
        mem.contains_range(addr, src.len()),
    ensures
        mem.write(addr, src).read(addr, src.len()) == src,
        mem.write(addr, src).base == mem.base,
        mem.write(addr, src).bytes.len() == mem.bytes.len(),
{
    assert(mem.write(addr, src).read(addr, src.len()) =~= src);
}

/// A write changes no byte outside the range it writes.
pub proof fn lemma_write_keeps(mem: MemoryView, addr: int, src: Seq<u8>, other: int, len: nat)
    requires
        mem.contains_range(addr, src.len()),
        mem.contains_range(other, len),
        other + len <= addr || addr + src.len() <= other,
    ensures
        mem.write(addr, src).read(other, len) == mem.read(other, len),
{
    assert(mem.write(addr, src).read(other, len) =~= mem.read(other, len));
}

impl<const SIZE: usize> GuestMemory<SIZE> {
    /// The region can be mapped in `table` with permissions `flags`: it
    /// begins on a page boundary, its pages and those of its backing store
    /// end below the limits of the table, the flags are permissions with
    /// one of R, W and X among them, none of its pages is mapped yet, and
    /// the pool of the table holds three pages for every 512 pages of the
    /// region, and six more.
    pub open spec fn spec_mappable(&self, table: TableView, flags: u64) -> bool {
        &&& self@.base % 4096 == 0
        &&& self@.base + 4096 * Self::spec_page_count() <= GUEST_ADDR_LIMIT
        &&& self.spec_host_base() + 4096 * Self::spec_page_count() <= HOST_ADDR_LIMIT
        &&& flags_are_valid(flags)
        &&& forall|key: u64|
            in_run(key, self@.base as int, Self::spec_page_count()) ==> !table.mapping.contains_key(
                key,
            )
        &&& table.free_pages >= 3 * (Self::spec_page_count() / 512 + 2)
    }

    /// Data that fits a region that can be mapped is loaded: the region
    /// begins with the data and keeps its other bytes, every page of the
    /// region leads to the page of the backing store that holds it, with
    /// the permissions asked for, and no other mapping changes. The pool
    /// gives no more pages than it was asked to hold.
    pub proof fn lemma_write_and_map_goes_through(&self, table: TableView, src: Seq<u8>, flags: u64)
        requires
            self.wf(),
            src.len() <= SIZE,
            self.spec_mappable(table, flags),
        ensures
            ({
                let out = self.spec_write_and_map(table, src, flags);
                &&& out.error is None
                &&& out.mem.base == self@.base
                &&& out.mem.bytes.len() == SIZE
                &&& out.mem.read(self@.base as int, src.len()) == src
                &&& forall|i: int| src.len() <= i < SIZE ==> out.mem.bytes[i] == self@.bytes[i]
                &&& out.table.mapping == with_run(
                    table.mapping,
                    self@.base as int,
                    self.spec_host_base() as int,
                    flags,
                    Self::spec_page_count(),
                )
                &&& forall|key: u64|
                    in_run(key, self@.base as int, Self::spec_page_count())
                        ==> out.table.mapping.contains_key(key) && #[trigger] out.table.mapping[key]
                        == (Translation {
                        host_addr: (self.spec_host_base() + (key - self@.base)) as u64,
                        flags,
                    })
                &&& forall|key: u64|
                    !in_run(key, self@.base as int, Self::spec_page_count()) ==> (
                    #[trigger] out.table.mapping.contains_key(key) == table.mapping.contains_key(
                        key,
                    ))
                &&& out.table.free_pages + 3 * (Self::spec_page_count() / 512 + 2)
                    >= table.free_pages
            }),
    {
        let count = Self::spec_page_count();
        lemma_map_pages_goes_through(table, self@.base, self.spec_host_base(), flags, count);
        lemma_map_pages_maps_run(table, self@.base, self.spec_host_base(), flags, count);
        lemma_read_after_write(self@, self@.base as int, src);
    }
}

} // verus!
