//! The G-stage page table, which leads from guest-physical to
//! host-physical addresses.

use crate::allocator::PageAllocator;
use vstd::prelude::*;

verus! {

/// The entry is valid.
pub const PTE_V: u64 = 0x01;

/// The page may be read.
pub const PTE_R: u64 = 0x02;

/// The page may be written.
pub const PTE_W: u64 = 0x04;

/// Instructions may be fetched from the page.
pub const PTE_X: u64 = 0x08;

/// The page is accessible to user mode.
pub const PTE_U: u64 = 0x10;

/// The mapping is global.
pub const PTE_G: u64 = 0x20;

/// The page was accessed.
pub const PTE_A: u64 = 0x40;

/// The page was written.
pub const PTE_D: u64 = 0x80;

/// Translation mode Sv48x4 in bits 63-60 of `hgatp`.
pub const HGATP_MODE_SV48X4: u64 = 0x9000_0000_0000_0000;

/// First guest-physical address that the table cannot map.
pub const GUEST_ADDR_LIMIT: u64 = 0x1_0000_0000_0000;

/// First host-physical address that an entry cannot hold.
pub const HOST_ADDR_LIMIT: u64 = 0x100_0000_0000_0000;

/// Entries in one page of the table.
pub const ENTRIES_PER_PAGE: usize = 512;

/// Why a mapping was not installed.
#[derive(Clone, Copy, Debug, PartialEq, Eq, Structural)]
pub enum MapError {
    /// An address does not lie on a page boundary.
    Misaligned,
    /// The guest-physical address is beyond what the table covers.
    GuestAddrOutOfRange,
    /// The host-physical address does not fit in an entry.
    HostAddrOutOfRange,
    /// The flags hold a bit that is no permission, or none of R, W and X.
    InvalidFlags,
    /// The guest page is mapped already.
    AlreadyMapped,
    /// The table needs more pages than its pool has left.
    OutOfMemory,
}

/// Where a guest-physical address leads: a host-physical address and the
/// permissions of the page.
#[derive(Clone, Copy, Debug, PartialEq, Eq, Structural)]
pub struct Translation {
    pub host_addr: u64,
    pub flags: u64,
}

/// The entry has its valid bit set.
pub open spec fn pte_is_valid(entry: u64) -> bool {
    entry & 0x1 != 0
}

/// The entry is a leaf: one of R, W and X is set.
pub open spec fn pte_is_leaf(entry: u64) -> bool {
    entry & 0xe != 0
}

/// The host-physical address in the entry: its 44-bit page number, shifted
/// to an address.
pub open spec fn pte_addr(entry: u64) -> u64 {
    ((entry >> 10) & 0xfff_ffff_ffff) << 12
}

/// The permission bits of the entry: R, W, X, U, G, A and D.
pub open spec fn pte_flags(entry: u64) -> u64 {
    entry & 0xfe
}

/// The valid leaf entry for the page at `host_addr` with permissions `flags`.
pub open spec fn leaf_pte(host_addr: u64, flags: u64) -> u64 {
    ((host_addr >> 12) << 10) | flags | 0x1
}

/// The valid entry that points to the table page at `addr`.
pub open spec fn table_pte(addr: u64) -> u64 {
    ((addr >> 12) << 10) | 0x1
}

/// `flags` holds permission bits only, and one of R, W and X.
pub open spec fn flags_are_valid(flags: u64) -> bool {
    flags & !0xfe == 0 && flags & 0xe != 0
}

/// Index of the entry for `gpa` in a table at `level`: nine bits of the
/// address, the lowest of them bit 12 at level 0.
pub open spec fn vpn(gpa: u64, level: nat) -> int {
    if level == 0 {
        (gpa as int / 0x1000) % 512
    } else if level == 1 {
        (gpa as int / 0x20_0000) % 512
    } else if level == 2 {
        (gpa as int / 0x4000_0000) % 512
    } else {
        (gpa as int / 0x80_0000_0000) % 512
    }
}

/// First guest-physical address that the table at `level` on the way to
/// `gpa` covers. A table at level 0 covers 2 MiB, and each level above
/// covers 512 times as much.
pub open spec fn table_base(gpa: u64, level: nat) -> int {
    if level == 0 {
        gpa as int / 0x20_0000 * 0x20_0000
    } else if level == 1 {
        gpa as int / 0x4000_0000 * 0x4000_0000
    } else if level == 2 {
        gpa as int / 0x80_0000_0000 * 0x80_0000_0000
    } else {
        gpa as int / 0x1_0000_0000_0000 * 0x1_0000_0000_0000
    }
}

/// `base` is the first address that some table at `level` covers.
pub open spec fn is_table_base(base: int, level: nat) -> bool {
    if level == 0 {
        base % 0x20_0000 == 0
    } else if level == 1 {
        base % 0x4000_0000 == 0
    } else if level == 2 {
        base % 0x80_0000_0000 == 0
    } else {
        base % 0x1_0000_0000_0000 == 0
    }
}

/// First guest-physical address that entry `k` of a table at `level` covers,
/// where the table covers the addresses from `base` on.
pub open spec fn entry_base(base: int, k: int, level: nat) -> int {
    if level == 0 {
        base + k * 0x1000
    } else if level == 1 {
        base + k * 0x20_0000
    } else if level == 2 {
        base + k * 0x4000_0000
    } else {
        base + k * 0x80_0000_0000
    }
}

/// The pages of a table as the hardware finds them: page `i` lies at
/// host-physical address `first + 4096 * i` and holds 512 entries; page 0
/// is the root.
pub struct RawTable {
    pub first: u64,
    pub pages: Seq<Seq<u64>>,
}

impl RawTable {
    /// The number of the page at host-physical address `addr`.
    pub open spec fn page_index(self, addr: u64) -> Option<int> {
        if self.first <= addr && (addr - self.first) % 4096 == 0 && (addr - self.first) / 4096
            < self.pages.len() {
            Some((addr - self.first) / 4096)
        } else {
            None
        }
    }

    /// The page that the entry for `gpa` in page `i`, a table at `level`,
    /// points to.
    pub open spec fn child(self, i: int, level: nat, gpa: u64) -> Option<int> {
        let entry = self.pages[i][vpn(gpa, level)];
        if pte_is_valid(entry) && !pte_is_leaf(entry) {
            self.page_index(pte_addr(entry))
        } else {
            None
        }
    }

    /// The page that a walk from the root for `gpa` reaches at `level`.
    pub open spec fn table_at(self, gpa: u64, level: nat) -> Option<int> {
        let at3: Option<int> = if gpa < GUEST_ADDR_LIMIT {
            Some(0)
        } else {
            None
        };
        let at2 = match at3 {
            Some(i) => self.child(i, 3, gpa),
            None => None,
        };
        let at1 = match at2 {
            Some(i) => self.child(i, 2, gpa),
            None => None,
        };
        let at0 = match at1 {
            Some(i) => self.child(i, 1, gpa),
            None => None,
        };
        if level == 3 {
            at3
        } else if level == 2 {
            at2
        } else if level == 1 {
            at1
        } else if level == 0 {
            at0
        } else {
            None
        }
    }

    /// The leaf entry that a walk from the root for `gpa` ends at.
    pub open spec fn leaf(self, gpa: u64) -> Option<u64> {
        match self.table_at(gpa, 0) {
            Some(i) => {
                let entry = self.pages[i][vpn(gpa, 0)];
                if pte_is_valid(entry) && pte_is_leaf(entry) {
                    Some(entry)
                } else {
                    None
                }
            },
            None => None,
        }
    }

    /// Where `gpa` leads: the page of its leaf entry, at the offset that
    /// `gpa` has in its own page.
    pub open spec fn translate(self, gpa: u64) -> Option<Translation> {
        match self.leaf(gpa) {
            Some(entry) => Some(
                Translation {
                    host_addr: (pte_addr(entry) + gpa % 4096) as u64,
                    flags: pte_flags(entry),
                },
            ),
            None => None,
        }
    }

    /// The guest pages that are mapped, each with where it leads.
    pub open spec fn mapping(self) -> Map<u64, Translation> {
        Map::new(
            |gpa: u64| gpa % 4096 == 0 && self.leaf(gpa) is Some,
            |gpa: u64| self.translate(gpa).unwrap(),
        )
    }

    /// The tables below the root that exist, each named by its level and
    /// the first guest-physical address it covers.
    pub open spec fn tables(self) -> Set<(nat, int)> {
        Set::new(
            |t: (nat, int)|
                t.0 <= 2 && 0 <= t.1 < GUEST_ADDR_LIMIT && is_table_base(t.1, t.0)
                    && self.table_at(t.1 as u64, t.0) is Some,
        )
    }
}

/// What a page table holds: the guest pages it maps, the tables below the
/// root that exist, and the number of pages its pool has left.
#[verifier::ext_equal]
pub struct TableView {
    pub mapping: Map<u64, Translation>,
    pub tables: Set<(nat, int)>,
    pub free_pages: nat,
}

impl TableView {
    /// The table at `level` on the way to `gpa` does not exist yet.
    pub open spec fn lacks_table(self, gpa: u64, level: nat) -> bool {
        !self.tables.contains((level, table_base(gpa, level)))
    }

    /// Number of pages that a mapping of `gpa` adds to the table.
    pub open spec fn pages_needed(self, gpa: u64) -> nat {
        let n2: nat = if self.lacks_table(gpa, 2) { 1 } else { 0 };
        let n1: nat = if self.lacks_table(gpa, 1) { 1 } else { 0 };
        let n0: nat = if self.lacks_table(gpa, 0) { 1 } else { 0 };
        n2 + n1 + n0
    }

    /// Mapping the guest page at `guest_addr` to the host page at
    /// `host_addr` with permissions `flags`: the table as it is then, or
    /// why the mapping is refused.
    #[verifier::opaque]
    pub open spec fn map(self, guest_addr: u64, host_addr: u64, flags: u64) -> Result<
        TableView,
        MapError,
    > {
        if guest_addr % 4096 != 0 || host_addr % 4096 != 0 {
            Err(MapError::Misaligned)
        } else if guest_addr >= GUEST_ADDR_LIMIT {
            Err(MapError::GuestAddrOutOfRange)
        } else if host_addr >= HOST_ADDR_LIMIT {
            Err(MapError::HostAddrOutOfRange)
        } else if !flags_are_valid(flags) {
            Err(MapError::InvalidFlags)
        } else if self.mapping.contains_key(guest_addr) {
            Err(MapError::AlreadyMapped)
        } else if self.pages_needed(guest_addr) > self.free_pages {
            Err(MapError::OutOfMemory)
        } else {
            Ok(
                TableView {
                    mapping: self.mapping.insert(guest_addr, Translation { host_addr, flags }),
                    tables: self.tables.insert((2, table_base(guest_addr, 2))).insert(
                        (1, table_base(guest_addr, 1)),
                    ).insert((0, table_base(guest_addr, 0))),
                    free_pages: (self.free_pages - self.pages_needed(guest_addr)) as nat,
                },
            )
        }
    }
}

/// Where the mapping of a run of pages ended.
#[verifier::ext_equal]
pub struct RegionOutcome {
    pub table: TableView,
    /// Why the run stopped early, if it did.
    pub error: Option<MapError>,
}

impl TableView {
    /// Mapping `count` guest pages from `guest_addr` on to the host pages
    /// from `host_addr` on, one after the other. The first mapping that is
    /// refused ends the run; the pages before it stay mapped.
    pub open spec fn map_pages(
        self,
        guest_addr: u64,
        host_addr: u64,
        flags: u64,
        count: nat,
    ) -> RegionOutcome
        decreases count,
    {
        if count == 0 {
            RegionOutcome { table: self, error: None }
        } else {
            match self.map(guest_addr, host_addr, flags) {
                Ok(table) => table.map_pages(
                    (guest_addr + 4096) as u64,
                    (host_addr + 4096) as u64,
                    flags,
                    (count - 1) as nat,
                ),
                Err(error) => RegionOutcome { table: self, error: Some(error) },
            }
        }
    }
}

/// Entry `k` of page `i` fits the level and the first address that `meta`
/// records for the page: at level 0 a valid entry is a leaf, above it
/// points to the table for its part of the address space.
spec fn entry_ok(t: RawTable, meta: Seq<(nat, int)>, i: int, k: int) -> bool {
    let entry = t.pages[i][k];
    pte_is_valid(entry) ==> if meta[i].0 == 0 {
        pte_is_leaf(entry)
    } else {
        &&& !pte_is_leaf(entry)
        &&& t.page_index(pte_addr(entry)) matches Some(c)
        &&& meta[c] == ((meta[i].0 - 1) as nat, entry_base(meta[i].1, k, meta[i].0))
    }
}

/// The pages form a tree: page 0 is the root, and every valid entry of a
/// table above level 0 points to a page that holds the table one level
/// below for the addresses of that entry.
spec fn inv(t: RawTable, meta: Seq<(nat, int)>) -> bool {
    &&& t.pages.len() >= 1
    &&& meta.len() == t.pages.len()
    &&& t.first % 4096 == 0
    &&& t.first + 4096 * t.pages.len() <= HOST_ADDR_LIMIT
    &&& meta[0] == (3nat, 0int)
    &&& forall|i: int| 0 <= i < t.pages.len() ==> (#[trigger] t.pages[i]).len() == 512
    &&& forall|i: int| 0 <= i < meta.len() ==> (#[trigger] meta[i]).0 <= 3
    &&& forall|i: int, k: int|
        0 <= i < t.pages.len() && 0 <= k < 512 ==> #[trigger] entry_ok(t, meta, i, k)
}

/// A walk that reaches a page at `level` reaches the table that the proof
/// remembers for it.
proof fn lemma_reach(t: RawTable, meta: Seq<(nat, int)>, gpa: u64, level: nat)
    requires
        inv(t, meta),
        t.table_at(gpa, level) is Some,
    ensures
        0 <= t.table_at(gpa, level).unwrap() < t.pages.len(),
        meta[t.table_at(gpa, level).unwrap()] == (level, table_base(gpa, level)),
        gpa < GUEST_ADDR_LIMIT,
        level <= 3,
{
    assert(gpa < GUEST_ADDR_LIMIT);
    lemma_bases(gpa);
    if level <= 2 {
        let k3 = vpn(gpa, 3);
        assert(entry_ok(t, meta, 0, k3));
        let i2 = t.table_at(gpa, 2).unwrap();
        assert(meta[i2] == (2nat, table_base(gpa, 2)));
        if level <= 1 {
            let k2 = vpn(gpa, 2);
            assert(entry_ok(t, meta, i2, k2));
            let i1 = t.table_at(gpa, 1).unwrap();
            assert(meta[i1] == (1nat, table_base(gpa, 1)));
            if level == 0 {
                let k1 = vpn(gpa, 1);
                assert(entry_ok(t, meta, i1, k1));
                let i0 = t.table_at(gpa, 0).unwrap();
                assert(meta[i0] == (0nat, table_base(gpa, 0)));
            }
        }
    }
}

/// A page without a valid entry.
spec fn zero_page() -> Seq<u64> {
    Seq::new(512, |k: int| 0u64)
}

/// The table after a new empty page was appended and entry `k` of page
/// `parent` was pointed at it.
spec fn linked(t: RawTable, parent: int, k: int) -> RawTable {
    RawTable {
        first: t.first,
        pages: t.pages.update(
            parent,
            t.pages[parent].update(k, table_pte((t.first + 4096 * t.pages.len()) as u64)),
        ).push(zero_page()),
    }
}

/// The table after entry `k` of page `i` was set to `entry`.
spec fn with_entry(t: RawTable, i: int, k: int, entry: u64) -> RawTable {
    RawTable { first: t.first, pages: t.pages.update(i, t.pages[i].update(k, entry)) }
}

/// An entry that points to a table is valid, is no leaf and gives the
/// table's address back.
proof fn lemma_table_pte(addr: u64)
    by (bit_vector)
    requires
        addr % 4096 == 0,
        addr < 0x100_0000_0000_0000,
    ensures
        pte_is_valid(table_pte(addr)),
        !pte_is_leaf(table_pte(addr)),
        pte_addr(table_pte(addr)) == addr,
{
}

/// A leaf entry is valid, is a leaf and gives the page's address and
/// permissions back.
proof fn lemma_leaf_pte(host_addr: u64, flags: u64)
    by (bit_vector)
    requires
        host_addr % 4096 == 0,
        host_addr < 0x100_0000_0000_0000,
        flags_are_valid(flags),
    ensures
        pte_is_valid(leaf_pte(host_addr, flags)),
        pte_is_leaf(leaf_pte(host_addr, flags)),
        pte_addr(leaf_pte(host_addr, flags)) == host_addr,
        pte_flags(leaf_pte(host_addr, flags)) == flags,
{
}

/// An entry that is 0 is not valid.
proof fn lemma_zero_pte()
    by (bit_vector)
    ensures
        !pte_is_valid(0),
{
}

/// How the bases of the tables on the way to `x` follow from one another.
proof fn lemma_bases(x: u64)
    requires
        x < GUEST_ADDR_LIMIT,
    ensures
        table_base(x, 3) == 0,
        table_base(x, 2) == entry_base(table_base(x, 3), vpn(x, 3), 3),
        table_base(x, 1) == entry_base(table_base(x, 2), vpn(x, 2), 2),
        table_base(x, 0) == entry_base(table_base(x, 1), vpn(x, 1), 1),
        x as int / 4096 * 4096 == entry_base(table_base(x, 0), vpn(x, 0), 0),
        0 <= vpn(x, 3) < 512,
        0 <= vpn(x, 2) < 512,
        0 <= vpn(x, 1) < 512,
        0 <= vpn(x, 0) < 512,
{
    let x = x as int;
    assert(x / 0x1_0000_0000_0000 == 0);
    assert((x / 0x1000) / 512 == x / 0x20_0000) by {
        vstd::arithmetic::div_mod::lemma_div_denominator(x, 0x1000, 512);
        assert(0x1000 * 512 == 0x20_0000int);
    }
    assert((x / 0x20_0000) / 512 == x / 0x4000_0000) by {
        vstd::arithmetic::div_mod::lemma_div_denominator(x, 0x20_0000, 512);
        assert(0x20_0000 * 512 == 0x4000_0000int);
    }
    assert((x / 0x4000_0000) / 512 == x / 0x80_0000_0000) by {
        vstd::arithmetic::div_mod::lemma_div_denominator(x, 0x4000_0000, 512);
        assert(0x4000_0000 * 512 == 0x80_0000_0000int);
    }
    assert((x / 0x80_0000_0000) / 512 == x / 0x1_0000_0000_0000) by {
        vstd::arithmetic::div_mod::lemma_div_denominator(x, 0x80_0000_0000, 512);
        assert(0x80_0000_0000 * 512 == 0x1_0000_0000_0000int);
    }
    let q0 = x / 0x1000;
    let q1 = x / 0x20_0000;
    let q2 = x / 0x4000_0000;
    let q3 = x / 0x80_0000_0000;
    assert(q0 == 512 * q1 + q0 % 512);
    assert(q1 == 512 * q2 + q1 % 512);
    assert(q2 == 512 * q3 + q2 % 512);
    assert(q3 == q3 % 512);
}

/// What linking a new empty table into the walk for `gpa` does to the walk
/// for any address `x`.
proof fn lemma_link_walk(
    t: RawTable,
    meta: Seq<(nat, int)>,
    parent: int,
    level: nat,
    gpa: u64,
    x: u64,
)
    requires
        inv(t, meta),
        1 <= level <= 3,
        t.table_at(gpa, level) == Some(parent),
        !pte_is_valid(t.pages[parent][vpn(gpa, level)]),
        t.first + 4096 * (t.pages.len() + 1) <= HOST_ADDR_LIMIT,
    ensures
        ({
            let t2 = linked(t, parent, vpn(gpa, level));
            let hit = t.table_at(x, level) == Some(parent) && vpn(x, level) == vpn(gpa, level);
            &&& t2.leaf(x) == t.leaf(x)
            &&& t2.translate(x) == t.translate(x)
            &&& forall|l: nat|
                l <= 3 ==> #[trigger] t2.table_at(x, l) == (if l + 1 == level && hit {
                    Some(t.pages.len() as int)
                } else {
                    t.table_at(x, l)
                })
        }),
{
    let k = vpn(gpa, level);
    let n = t.pages.len() as int;
    let t2 = linked(t, parent, k);
    let new_addr = (t.first + 4096 * n) as u64;
    lemma_reach(t, meta, gpa, level);
    lemma_bases(gpa);
    lemma_table_pte(new_addr);
    lemma_zero_pte();
    assert(t2.page_index(new_addr) == Some(n));
    assert(forall|j: int| 0 <= j < 512 ==> t2.pages[n][j] == 0);
    if x < GUEST_ADDR_LIMIT {
        lemma_bases(x);
        // level 3
        let k3 = vpn(x, 3);
        assert(entry_ok(t, meta, 0, k3));
        if t.table_at(x, 2) is Some {
            let i2 = t.table_at(x, 2).unwrap();
            lemma_reach(t, meta, x, 2);
            let k2 = vpn(x, 2);
            assert(entry_ok(t, meta, i2, k2));
            if t.table_at(x, 1) is Some {
                let i1 = t.table_at(x, 1).unwrap();
                lemma_reach(t, meta, x, 1);
                let k1 = vpn(x, 1);
                assert(entry_ok(t, meta, i1, k1));
                if t.table_at(x, 0) is Some {
                    lemma_reach(t, meta, x, 0);
                }
            }
        }
    }
}

/// The first address of the table at `level - 1` on the way to `gpa` takes
/// the same way down to that table as `gpa` does.
proof fn lemma_base_walk(gpa: u64, level: nat)
    requires
        gpa < GUEST_ADDR_LIMIT,
        1 <= level <= 3,
    ensures
        ({
            let x = table_base(gpa, (level - 1) as nat);
            &&& 0 <= x <= gpa
            &&& is_table_base(x, (level - 1) as nat)
            &&& table_base(x as u64, (level - 1) as nat) == x
            &&& forall|l: nat| level <= l <= 3 ==> #[trigger] vpn(x as u64, l) == vpn(gpa, l)
        }),
{
    lemma_bases(gpa);
    let x = table_base(gpa, (level - 1) as nat);
    let g = gpa as int;
    if level == 1 {
        assert(x == table_base(gpa, 0));
        assert(x == 0x20_0000 * (g / 0x20_0000));
        vstd::arithmetic::div_mod::lemma_div_multiples_vanish(g / 0x20_0000, 0x20_0000);
        assert(x / 0x20_0000 == g / 0x20_0000);
    } else if level == 2 {
        assert(x == table_base(gpa, 1));
        assert(x == 0x4000_0000 * (g / 0x4000_0000));
        vstd::arithmetic::div_mod::lemma_div_multiples_vanish(g / 0x4000_0000, 0x4000_0000);
        assert(x / 0x4000_0000 == g / 0x4000_0000);
    } else {
        assert(x == table_base(gpa, 2));
        assert(x == 0x80_0000_0000 * (g / 0x80_0000_0000));
        vstd::arithmetic::div_mod::lemma_div_multiples_vanish(g / 0x80_0000_0000, 0x80_0000_0000);
        assert(x / 0x80_0000_0000 == g / 0x80_0000_0000);
    }
    assert(0 <= x <= gpa);
    lemma_bases(x as u64);
    assert((g / 0x20_0000) / 512 == g / 0x4000_0000 && (g / 0x4000_0000) / 512 == g
        / 0x80_0000_0000) by {
        vstd::arithmetic::div_mod::lemma_div_denominator(g, 0x20_0000, 512);
        vstd::arithmetic::div_mod::lemma_div_denominator(g, 0x4000_0000, 512);
        assert(0x20_0000 * 512 == 0x4000_0000int && 0x4000_0000 * 512 == 0x80_0000_0000int);
    }
    assert((x / 0x20_0000) / 512 == x / 0x4000_0000 && (x / 0x4000_0000) / 512 == x
        / 0x80_0000_0000) by {
        vstd::arithmetic::div_mod::lemma_div_denominator(x, 0x20_0000, 512);
        vstd::arithmetic::div_mod::lemma_div_denominator(x, 0x4000_0000, 512);
        assert(0x20_0000 * 512 == 0x4000_0000int && 0x4000_0000 * 512 == 0x80_0000_0000int);
    }
    let x1 = x / 0x20_0000;
    let x2 = x / 0x4000_0000;
    let x3 = x / 0x80_0000_0000;
    let g1 = g / 0x20_0000;
    let g2 = g / 0x4000_0000;
    let g3 = g / 0x80_0000_0000;
    assert(x1 / 512 == x2 && x2 / 512 == x3 && g1 / 512 == g2 && g2 / 512 == g3);
    if level == 1 {
        assert(x1 == g1);
        assert(x2 == g2);
        assert(x3 == g3);
    } else if level == 2 {
        assert(x2 == g2);
        assert(x3 == g3);
    } else {
        assert(x3 == g3);
    }
    assert(vpn(x as u64, 3) == x3 % 512 && vpn(gpa, 3) == g3 % 512);
    assert(vpn(x as u64, 2) == x2 % 512 && vpn(gpa, 2) == g2 % 512);
    assert(vpn(x as u64, 1) == x1 % 512 && vpn(gpa, 1) == g1 % 512);
    assert(is_table_base(x, (level - 1) as nat));
    assert(table_base(x as u64, (level - 1) as nat) == x);
}

/// Linking a new empty table into the walk for `gpa` adds that one table.
proof fn lemma_link_tables(t: RawTable, meta: Seq<(nat, int)>, parent: int, level: nat, gpa: u64)
    requires
        inv(t, meta),
        1 <= level <= 3,
        t.table_at(gpa, level) == Some(parent),
        !pte_is_valid(t.pages[parent][vpn(gpa, level)]),
        t.first + 4096 * (t.pages.len() + 1) <= HOST_ADDR_LIMIT,
    ensures
        linked(t, parent, vpn(gpa, level)).tables() =~= t.tables().insert(
            ((level - 1) as nat, table_base(gpa, (level - 1) as nat)),
        ),
{
    let n = t.pages.len() as int;
    let t2 = linked(t, parent, vpn(gpa, level));
    let added = ((level - 1) as nat, table_base(gpa, (level - 1) as nat));
    lemma_reach(t, meta, gpa, level);
    lemma_base_walk(gpa, level);
    assert forall|tb: (nat, int)| t2.tables().contains(tb) <==> t.tables().insert(added).contains(
        tb,
    ) by {
        if tb.0 <= 2 && 0 <= tb.1 < GUEST_ADDR_LIMIT && is_table_base(tb.1, tb.0) {
            let x = tb.1 as u64;
            lemma_link_walk(t, meta, parent, level, gpa, x);
            lemma_bases(x);
            assert(t2.table_at(x, tb.0) == (if tb.0 + 1 == level && t.table_at(x, level) == Some(
                parent,
            ) && vpn(x, level) == vpn(gpa, level) {
                Some(n)
            } else {
                t.table_at(x, tb.0)
            }));
            if tb.0 + 1 == level {
                if t.table_at(x, level) == Some(parent) && vpn(x, level) == vpn(gpa, level) {
                    lemma_reach(t, meta, x, level);
                    assert(table_base(x, level) == table_base(gpa, level));
                    lemma_bases(gpa);
                    if level == 1 {
                        assert(table_base(x, 0) == table_base(gpa, 0));
                        assert(x as int / 0x20_0000 * 0x20_0000 == x);
                    } else if level == 2 {
                        assert(table_base(x, 1) == table_base(gpa, 1));
                        assert(x as int / 0x4000_0000 * 0x4000_0000 == x);
                    } else {
                        assert(table_base(x, 2) == table_base(gpa, 2));
                        assert(x as int / 0x80_0000_0000 * 0x80_0000_0000 == x);
                    }
                    assert(tb.1 == added.1);
                }
                if tb.1 == added.1 {
                    assert(vpn(x, level) == vpn(gpa, level));
                    assert(forall|l: nat| level <= l <= 3 ==> #[trigger] vpn(x, l) == vpn(gpa, l));
                    assert(vpn(x, 3) == vpn(gpa, 3));
                    if level <= 2 {
                        assert(vpn(x, 2) == vpn(gpa, 2));
                    }
                    if level <= 1 {
                        assert(vpn(x, 1) == vpn(gpa, 1));
                    }
                    assert(t.table_at(x, level) == t.table_at(gpa, level));
                }
            }
        }
    }
    assert(t2.tables() =~= t.tables().insert(added));
}

/// Linking a new empty table into the walk for `gpa` keeps the table well
/// formed, adds that one table, and changes no mapping.
proof fn lemma_link(t: RawTable, meta: Seq<(nat, int)>, parent: int, level: nat, gpa: u64)
    requires
        inv(t, meta),
        1 <= level <= 3,
        t.table_at(gpa, level) == Some(parent),
        !pte_is_valid(t.pages[parent][vpn(gpa, level)]),
        t.first + 4096 * (t.pages.len() + 1) <= HOST_ADDR_LIMIT,
    ensures
        ({
            let t2 = linked(t, parent, vpn(gpa, level));
            let added = ((level - 1) as nat, table_base(gpa, (level - 1) as nat));
            &&& inv(t2, meta.push(added))
            &&& t2.table_at(gpa, (level - 1) as nat) == Some(t.pages.len() as int)
            &&& t2.mapping() =~= t.mapping()
            &&& t2.tables() =~= t.tables().insert(added)
        }),
{
    let k = vpn(gpa, level);
    let n = t.pages.len() as int;
    let t2 = linked(t, parent, k);
    let added = ((level - 1) as nat, table_base(gpa, (level - 1) as nat));
    let meta2 = meta.push(added);
    let new_addr = (t.first + 4096 * n) as u64;
    lemma_reach(t, meta, gpa, level);
    lemma_bases(gpa);
    lemma_table_pte(new_addr);
    lemma_zero_pte();
    lemma_link_walk(t, meta, parent, level, gpa, gpa);
    assert(t2.page_index(new_addr) == Some(n));
    assert forall|i: int, j: int| 0 <= i < t2.pages.len() && 0 <= j < 512 implies #[trigger] entry_ok(
        t2,
        meta2,
        i,
        j,
    ) by {
        if i == n {
            assert(t2.pages[i][j] == 0);
        } else if i == parent && j == k {
            assert(t2.pages[i][j] == table_pte(new_addr));
        } else {
            assert(t2.pages[i][j] == t.pages[i][j]);
            assert(entry_ok(t, meta, i, j));
        }
    }
    assert forall|i: int| 0 <= i < t2.pages.len() implies (#[trigger] t2.pages[i]).len() == 512 by {
        if i < n {
            assert(t.pages[i].len() == 512);
        }
    }
    assert forall|i: int| 0 <= i < meta2.len() implies (#[trigger] meta2[i]).0 <= 3 by {
        if i < n {
            assert(meta[i].0 <= 3);
        }
    }
    assert(inv(t2, meta2));
    assert forall|x: u64| t2.leaf(x) == t.leaf(x) && t2.translate(x) == t.translate(x) by {
        lemma_link_walk(t, meta, parent, level, gpa, x);
    }
    assert(t2.mapping() =~= t.mapping());
    lemma_link_tables(t, meta, parent, level, gpa);
}

/// What setting a leaf entry for `gpa` does to the walk for any address `x`.
proof fn lemma_leaf_walk(t: RawTable, meta: Seq<(nat, int)>, i0: int, gpa: u64, entry: u64, x: u64)
    requires
        inv(t, meta),
        t.table_at(gpa, 0) == Some(i0),
        pte_is_valid(entry),
        pte_is_leaf(entry),
    ensures
        ({
            let t2 = with_entry(t, i0, vpn(gpa, 0), entry);
            &&& forall|l: nat| l <= 3 ==> #[trigger] t2.table_at(x, l) == t.table_at(x, l)
            &&& t2.leaf(x) == if x as int / 4096 == gpa as int / 4096 {
                Some(entry)
            } else {
                t.leaf(x)
            }
        }),
{
    let t2 = with_entry(t, i0, vpn(gpa, 0), entry);
    lemma_reach(t, meta, gpa, 0);
    lemma_bases(gpa);
    if x < GUEST_ADDR_LIMIT {
        lemma_bases(x);
        let k3 = vpn(x, 3);
        assert(entry_ok(t, meta, 0, k3));
        if t.table_at(x, 2) is Some {
            let i2 = t.table_at(x, 2).unwrap();
            lemma_reach(t, meta, x, 2);
            assert(entry_ok(t, meta, i2, vpn(x, 2)));
            if t.table_at(x, 1) is Some {
                let i1 = t.table_at(x, 1).unwrap();
                lemma_reach(t, meta, x, 1);
                assert(entry_ok(t, meta, i1, vpn(x, 1)));
                if t.table_at(x, 0) is Some {
                    lemma_reach(t, meta, x, 0);
                }
            }
        }
    }
}

/// Setting the leaf entry for the page at `gpa` keeps the table well
/// formed, maps that one page, and adds no table.
proof fn lemma_set_leaf(t: RawTable, meta: Seq<(nat, int)>, i0: int, gpa: u64, entry: u64)
    requires
        inv(t, meta),
        gpa % 4096 == 0,
        t.table_at(gpa, 0) == Some(i0),
        pte_is_valid(entry),
        pte_is_leaf(entry),
        pte_addr(entry) < HOST_ADDR_LIMIT,
    ensures
        ({
            let t2 = with_entry(t, i0, vpn(gpa, 0), entry);
            &&& inv(t2, meta)
            &&& t2.mapping() =~= t.mapping().insert(
                gpa,
                Translation { host_addr: pte_addr(entry), flags: pte_flags(entry) },
            )
            &&& t2.tables() =~= t.tables()
        }),
{
    let k = vpn(gpa, 0);
    let t2 = with_entry(t, i0, k, entry);
    lemma_reach(t, meta, gpa, 0);
    lemma_bases(gpa);
    assert forall|i: int, j: int| 0 <= i < t2.pages.len() && 0 <= j < 512 implies #[trigger] entry_ok(
        t2,
        meta,
        i,
        j,
    ) by {
        if i == i0 && j == k {
            assert(t2.pages[i][j] == entry);
        } else {
            assert(t2.pages[i][j] == t.pages[i][j]);
            assert(entry_ok(t, meta, i, j));
        }
    }
    assert forall|i: int| 0 <= i < t2.pages.len() implies (#[trigger] t2.pages[i]).len() == 512 by {
        assert(t.pages[i].len() == 512);
    }
    assert(inv(t2, meta));
    let target = t.mapping().insert(
        gpa,
        Translation { host_addr: pte_addr(entry), flags: pte_flags(entry) },
    );
    assert forall|x: u64| #[trigger] t2.mapping().contains_key(x) <==> target.contains_key(x) by {
        lemma_leaf_walk(t, meta, i0, gpa, entry, x);
    }
    assert forall|x: u64| #[trigger] t2.mapping().contains_key(x) implies t2.mapping()[x]
        == target[x] by {
        lemma_leaf_walk(t, meta, i0, gpa, entry, x);
    }
    assert(t2.mapping() =~= target);
    assert forall|tb: (nat, int)| t2.tables().contains(tb) <==> t.tables().contains(tb) by {
        if tb.0 <= 2 && 0 <= tb.1 < GUEST_ADDR_LIMIT {
            lemma_leaf_walk(t, meta, i0, gpa, entry, tb.1 as u64);
        }
    }
    assert(t2.tables() =~= t.tables());
}

/// The table at `level` on the way to `gpa` is among the tables exactly
/// when the walk for `gpa` reaches it.
proof fn lemma_has_table(t: RawTable, gpa: u64, level: nat)
    requires
        gpa < GUEST_ADDR_LIMIT,
        level <= 2,
    ensures
        t.tables().contains((level, table_base(gpa, level))) <==> t.table_at(gpa, level) is Some,
{
    lemma_base_walk(gpa, level + 1);
    let x = table_base(gpa, level) as u64;
    assert(vpn(x, 3) == vpn(gpa, 3));
    if level <= 1 {
        assert(vpn(x, 2) == vpn(gpa, 2));
    }
    if level == 0 {
        assert(vpn(x, 1) == vpn(gpa, 1));
    }
    assert(t.table_at(x, level) == t.table_at(gpa, level));
}


/// A G-stage page table of four levels. Its pages come from a pool of
/// host-physical memory that it owns; the first page of the pool is the root.
pub struct GuestPageTable {
    pages: Vec<Vec<u64>>,
    first: u64,
    pool: PageAllocator,
    meta: Ghost<Seq<(nat, int)>>,
}

impl View for GuestPageTable {
    type V = TableView;

    open spec fn view(&self) -> TableView {
        TableView {
            mapping: self.raw().mapping(),
            tables: self.raw().tables(),
            free_pages: self.spec_free_pages(),
        }
    }
}

/// Index of the entry for `gpa` in a table at `level`.
fn vpn_of(gpa: u64, level: u8) -> (index: usize)
    requires
        level <= 3,
    ensures
        index == vpn(gpa, level as nat),
        index < 512,
{
    let entry_span: u64 = if level == 0 {
        0x1000
    } else if level == 1 {
        0x20_0000
    } else if level == 2 {
        0x4000_0000
    } else {
        0x80_0000_0000
    };
    ((gpa / entry_span) % 512) as usize
}

impl GuestPageTable {
    /// The pages of the table as the hardware finds them.
    pub closed spec fn raw(&self) -> RawTable {
        RawTable {
            first: self.first,
            pages: Seq::new(self.pages@.len(), |i: int| self.pages@[i]@),
        }
    }

    /// Number of pages that the pool has left.
    pub closed spec fn spec_free_pages(&self) -> nat {
        self.pool.spec_free() / 4096
    }

    /// The host-physical address of the root page.
    pub open spec fn spec_root(&self) -> u64 {
        self.raw().first
    }

    /// The pages form a tree of tables below the root, every page lies in
    /// the pool, and the pool hands out the page after the last one next.
    pub closed spec fn wf(&self) -> bool {
        &&& inv(self.raw(), self.meta@)
        &&& self.pool.wf()
        &&& self.pool.spec_next() == self.first + 4096 * self.pages@.len()
        &&& self.pool.spec_end() <= HOST_ADDR_LIMIT
    }

    /// An empty table whose pages come from `pool`. The pool has to hold a
    /// page for the root and to end below the highest address that an
    /// entry can name.
    pub fn new(pool: PageAllocator) -> (r: Result<Self, MapError>)
        requires
            pool.wf(),
        ensures
            pool.spec_end() > HOST_ADDR_LIMIT ==> r is Err && r->Err_0
                == MapError::HostAddrOutOfRange,
            pool.spec_end() <= HOST_ADDR_LIMIT && pool.spec_free() < 4096 ==> r is Err && r->Err_0
                == MapError::OutOfMemory,
            pool.spec_end() <= HOST_ADDR_LIMIT && pool.spec_free() >= 4096 ==> r is Ok && {
                let table = r->Ok_0;
                &&& table.wf()
                &&& table.spec_root() == pool.spec_next()
                &&& table@.mapping == Map::<u64, Translation>::empty()
                &&& table@.tables == Set::<(nat, int)>::empty()
                &&& table@.free_pages == pool.spec_free() / 4096 - 1
            },
    {
        let mut pool = pool;
        if pool.end_addr() > HOST_ADDR_LIMIT {
            return Err(MapError::HostAddrOutOfRange);
        }
        let first = match pool.alloc_pages(4096) {
            Some(addr) => addr,
            None => { return Err(MapError::OutOfMemory); },
        };
        let root: Vec<u64> = vec![0u64; ENTRIES_PER_PAGE];
        let mut pages: Vec<Vec<u64>> = Vec::new();
        pages.push(root);
        let ghost root_meta: Seq<(nat, int)> = Seq::empty().push((3nat, 0int));
        let table = GuestPageTable { pages, first, pool, meta: Ghost(root_meta) };
        proof {
            lemma_zero_pte();
            let t = table.raw();
            assert(t.pages[0] =~= zero_page());
            assert forall|i: int, k: int| 0 <= i < t.pages.len() && 0 <= k < 512 implies #[trigger] entry_ok(
                t,
                table.meta@,
                i,
                k,
            ) by {
                assert(t.pages[i][k] == 0);
            }
            assert(inv(t, table.meta@));
            assert forall|x: u64| t.leaf(x) is None by {
                if x < GUEST_ADDR_LIMIT {
                    lemma_bases(x);
                    assert(t.pages[0][vpn(x, 3)] == 0);
                }
            }
            assert(table@.mapping =~= Map::<u64, Translation>::empty());
            assert forall|tb: (nat, int)| !table@.tables.contains(tb) by {
                if tb.0 <= 2 && 0 <= tb.1 < GUEST_ADDR_LIMIT {
                    let x = tb.1 as u64;
                    lemma_bases(x);
                    assert(t.pages[0][vpn(x, 3)] == 0);
                }
            }
            assert(table@.tables =~= Set::<(nat, int)>::empty());
        }
        Ok(table)
    }

    /// The value for `hgatp` that selects this table: mode Sv48x4, VMID 0
    /// and the page number of the root.
    pub fn hgatp(&self) -> (value: u64)
        ensures
            value == HGATP_MODE_SV48X4 | (self.spec_root() >> 12),
    {
        HGATP_MODE_SV48X4 | (self.first >> 12)
    }

    /// The host-physical address of the root page.
    pub fn root_addr(&self) -> (addr: u64)
        ensures
            addr == self.spec_root(),
    {
        self.first
    }

    /// Number of pages that the table holds.
    pub fn page_count(&self) -> (n: usize)
        ensures
            n == self.raw().pages.len(),
    {
        self.pages.len()
    }

    /// The entries of page `index`, which lies at host-physical address
    /// `root + 4096 * index`.
    pub fn page_entries(&self, index: usize) -> (entries: &[u64])
        requires
            index < self.raw().pages.len(),
        ensures
            entries@ == self.raw().pages[index as int],
    {
        self.pages[index].as_slice()
    }

    /// The number of the page that `entry` points to.
    fn entry_page(&self, entry: u64) -> (r: Option<usize>)
        requires
            self.wf(),
        ensures
            match r {
                Some(i) => self.raw().page_index(pte_addr(entry)) == Some(i as int) && i
                    < self.raw().pages.len(),
                None => self.raw().page_index(pte_addr(entry)) is None,
            },
    {
        let addr = ((entry >> 10) & 0xfff_ffff_ffff) << 12;
        if addr < self.first {
            return None;
        }
        let offset = addr - self.first;
        if offset % 4096 != 0 {
            return None;
        }
        let index = offset / 4096;
        if index >= self.pages.len() as u64 {
            return None;
        }
        Some(index as usize)
    }

    /// The page that the entry for `gpa` in page `i`, a table at `level`,
    /// points to.
    fn child_of(&self, i: usize, level: u8, gpa: u64) -> (r: Option<usize>)
        requires
            self.wf(),
            i < self.raw().pages.len(),
            1 <= level <= 3,
        ensures
            match r {
                Some(c) => self.raw().child(i as int, level as nat, gpa) == Some(c as int) && c
                    < self.raw().pages.len(),
                None => self.raw().child(i as int, level as nat, gpa) is None,
            },
    {
        let k = vpn_of(gpa, level);
        assert(self.raw().pages[i as int].len() == 512);
        let entry = self.pages[i][k];
        if entry & 0x1 != 0 && entry & 0xe == 0 {
            self.entry_page(entry)
        } else {
            None
        }
    }

    /// The page that a walk from the root for `gpa` reaches at `level`.
    fn find_table(&self, gpa: u64, level: u8) -> (r: Option<usize>)
        requires
            self.wf(),
            level <= 3,
        ensures
            match r {
                Some(i) => self.raw().table_at(gpa, level as nat) == Some(i as int) && i
                    < self.raw().pages.len(),
                None => self.raw().table_at(gpa, level as nat) is None,
            },
    {
        if gpa >= GUEST_ADDR_LIMIT {
            return None;
        }
        if level == 3 {
            return Some(0);
        }
        let i2 = match self.child_of(0, 3, gpa) {
            Some(c) => c,
            None => {
                assert(self.raw().table_at(gpa, 2) is None);
                return None;
            },
        };
        assert(self.raw().table_at(gpa, 2) == Some(i2 as int));
        if level == 2 {
            return Some(i2);
        }
        let i1 = match self.child_of(i2, 2, gpa) {
            Some(c) => c,
            None => {
                assert(self.raw().table_at(gpa, 1) is None);
                return None;
            },
        };
        assert(self.raw().table_at(gpa, 1) == Some(i1 as int));
        if level == 1 {
            return Some(i1);
        }
        self.child_of(i1, 1, gpa)
    }

    /// Walks the table for `gpa`. Returns the host-physical address that
    /// `gpa` leads to and the permissions of its page, or nothing where
    /// the page is not mapped.
    pub fn translate(&self, gpa: u64) -> (r: Option<Translation>)
        requires
            self.wf(),
        ensures
            r == self.raw().translate(gpa),
    {
        let i0 = match self.find_table(gpa, 0) {
            Some(i) => i,
            None => { return None; },
        };
        let k = vpn_of(gpa, 0);
        assert(self.raw().pages[i0 as int].len() == 512);
        let entry = self.pages[i0][k];
        if entry & 0x1 != 0 && entry & 0xe != 0 {
            let page = ((entry >> 10) & 0xfff_ffff_ffff) << 12;
            assert(page <= 0xff_ffff_ffff_f000) by (bit_vector)
                requires
                    page == ((entry >> 10) & 0xfff_ffff_ffff) << 12,
            ;
            Some(Translation { host_addr: page + gpa % 4096, flags: entry & 0xfe })
        } else {
            None
        }
    }
}

impl GuestPageTable {
    /// Appends an empty table for `gpa` below page `parent`, a table at
    /// `level`, and returns the number of the new page.
    fn link_new_table(&mut self, parent: usize, level: u8, gpa: u64) -> (child: usize)
        requires
            old(self).wf(),
            1 <= level <= 3,
            old(self).raw().table_at(gpa, level as nat) == Some(parent as int),
            old(self).raw().child(parent as int, level as nat, gpa) is None,
            old(self).spec_free_pages() >= 1,
        ensures
            final(self).wf(),
            final(self).spec_root() == old(self).spec_root(),
            final(self).raw().table_at(gpa, (level - 1) as nat) == Some(child as int),
            child < final(self).raw().pages.len(),
            final(self).raw().pages[child as int] == zero_page(),
            final(self)@ == (TableView {
                tables: old(self)@.tables.insert(
                    ((level - 1) as nat, table_base(gpa, (level - 1) as nat)),
                ),
                free_pages: (old(self)@.free_pages - 1) as nat,
                ..old(self)@
            }),
    {
        let k = vpn_of(gpa, level);
        let ghost t = self.raw();
        let ghost meta = self.meta@;
        proof {
            lemma_reach(t, meta, gpa, level as nat);
            assert(entry_ok(t, meta, parent as int, k as int));
            assert(!pte_is_valid(t.pages[parent as int][k as int]));
        }
        let child = self.pages.len();
        let addr = match self.pool.alloc_pages(4096) {
            Some(addr) => addr,
            None => {
                assert(false);
                0
            },
        };
        assert(addr == t.first + 4096 * t.pages.len());
        let page: Vec<u64> = vec![0u64; ENTRIES_PER_PAGE];
        assert(page@ =~= zero_page());
        self.pages.push(page);
        assert(t.pages[parent as int].len() == 512);
        self.pages[parent][k] = ((addr >> 12) << 10) | 0x1;
        proof {
            let added = ((level - 1) as nat, table_base(gpa, (level - 1) as nat));
            self.meta@ = meta.push(added);
            assert(self.raw().pages =~~= linked(t, parent as int, k as int).pages);
            assert(self.raw() == linked(t, parent as int, k as int));
            lemma_link(t, meta, parent as int, level as nat, gpa);
            assert(self@.mapping =~= old(self)@.mapping);
        }
        child
    }

    /// Sets the leaf entry for the guest page at `gpa` in page `i0`, the
    /// table at level 0 on the way to it.
    fn set_leaf(&mut self, i0: usize, gpa: u64, host_addr: u64, flags: u64)
        requires
            old(self).wf(),
            gpa % 4096 == 0,
            host_addr % 4096 == 0,
            host_addr < HOST_ADDR_LIMIT,
            flags_are_valid(flags),
            old(self).raw().table_at(gpa, 0) == Some(i0 as int),
            !pte_is_valid(old(self).raw().pages[i0 as int][vpn(gpa, 0)]),
        ensures
            final(self).wf(),
            final(self).spec_root() == old(self).spec_root(),
            final(self)@ == (TableView {
                mapping: old(self)@.mapping.insert(gpa, Translation { host_addr, flags }),
                ..old(self)@
            }),
    {
        let k = vpn_of(gpa, 0);
        let ghost t = self.raw();
        let entry = ((host_addr >> 12) << 10) | flags | 0x1;
        proof {
            lemma_reach(t, self.meta@, gpa, 0);
            lemma_leaf_pte(host_addr, flags);
            assert(t.pages[i0 as int].len() == 512);
        }
        self.pages[i0][k] = entry;
        proof {
            assert(self.raw().pages =~~= with_entry(t, i0 as int, k as int, entry).pages);
            assert(self.raw() == with_entry(t, i0 as int, k as int, entry));
            lemma_set_leaf(t, self.meta@, i0 as int, gpa, entry);
        }
    }

    /// Maps the guest page at `guest_addr` to the host page at `host_addr`
    /// with permissions `flags`, which are R, W, X, U, G, A and D. Tables
    /// that are missing on the way are taken from the pool. A mapping that
    /// is refused leaves the table as it was.
    #[verifier::rlimit(40)]
    pub fn map(&mut self, guest_addr: u64, host_addr: u64, flags: u64) -> (r: Result<(), MapError>)
        requires
            old(self).wf(),
        ensures
            final(self).wf(),
            final(self).spec_root() == old(self).spec_root(),
            match old(self)@.map(guest_addr, host_addr, flags) {
                Ok(view) => r == Ok::<(), MapError>(()) && final(self)@ == view,
                Err(error) => r == Err::<(), MapError>(error) && final(self)@ == old(self)@,
            },
    {
        reveal(TableView::map);
        if guest_addr % 4096 != 0 || host_addr % 4096 != 0 {
            return Err(MapError::Misaligned);
        }
        if guest_addr >= GUEST_ADDR_LIMIT {
            return Err(MapError::GuestAddrOutOfRange);
        }
        if host_addr >= HOST_ADDR_LIMIT {
            return Err(MapError::HostAddrOutOfRange);
        }
        if flags & !0xfe != 0 || flags & 0xe == 0 {
            return Err(MapError::InvalidFlags);
        }
        let at2 = self.find_table(guest_addr, 2);
        let at1 = self.find_table(guest_addr, 1);
        let at0 = self.find_table(guest_addr, 0);
        let ghost t = self.raw();
        proof {
            lemma_has_table(t, guest_addr, 2);
            lemma_has_table(t, guest_addr, 1);
            lemma_has_table(t, guest_addr, 0);
        }
        match at0 {
            Some(i0) => {
                let k = vpn_of(guest_addr, 0);
                assert(t.pages[i0 as int].len() == 512);
                let entry = self.pages[i0][k];
                if entry & 0x1 != 0 {
                    proof {
                        lemma_reach(t, self.meta@, guest_addr, 0);
                        assert(entry_ok(t, self.meta@, i0 as int, k as int));
                        assert(t.leaf(guest_addr) is Some);
                    }
                    return Err(MapError::AlreadyMapped);
                }
            },
            None => {},
        }
        assert(!self@.mapping.contains_key(guest_addr));
        let mut needed: u64 = 0;
        if at2.is_none() {
            needed += 1;
        }
        if at1.is_none() {
            needed += 1;
        }
        if at0.is_none() {
            needed += 1;
        }
        assert(needed == self@.pages_needed(guest_addr));
        if needed > self.pool.free_bytes() / 4096 {
            return Err(MapError::OutOfMemory);
        }
        let i2 = match at2 {
            Some(i) => i,
            None => self.link_new_table(0, 3, guest_addr),
        };
        let i1 = match at1 {
            Some(i) => i,
            None => {
                proof {
                    lemma_zero_pte();
                }
                self.link_new_table(i2, 2, guest_addr)
            },
        };
        let i0 = match at0 {
            Some(i) => i,
            None => {
                proof {
                    lemma_zero_pte();
                }
                self.link_new_table(i1, 1, guest_addr)
            },
        };
        proof {
            lemma_zero_pte();
        }
        self.set_leaf(i0, guest_addr, host_addr, flags);
        proof {
            let goal = old(self)@.map(guest_addr, host_addr, flags)->Ok_0;
            assert(self@.tables =~= goal.tables);
        }
        Ok(())
    }
}

/// A mapping is installed whenever both addresses lie on page boundaries
/// and in range, the flags are permissions with one of R, W and X among
/// them, the guest page is not mapped yet and the pool holds the pages
/// for the tables that are missing. The guest page then leads to the host
/// page with these permissions, and every other guest page leads where it
/// led before.
pub proof fn lemma_map_installs(view: TableView, guest_addr: u64, host_addr: u64, flags: u64)
    requires
        guest_addr % 4096 == 0,
        host_addr % 4096 == 0,
        guest_addr < GUEST_ADDR_LIMIT,
        host_addr < HOST_ADDR_LIMIT,
        flags_are_valid(flags),
        !view.mapping.contains_key(guest_addr),
        view.pages_needed(guest_addr) <= view.free_pages,
    ensures
        view.map(guest_addr, host_addr, flags) is Ok,
        view.map(guest_addr, host_addr, flags).unwrap().mapping == view.mapping.insert(
            guest_addr,
            Translation { host_addr, flags },
        ),
{
    reveal(TableView::map);
}

/// A mapping that is refused says why, by the first of these that holds: an
/// address off a page boundary, a guest address out of range, a host
/// address out of range, flags that are not valid, a guest page that is
/// mapped already, a pool that holds too few pages.
pub proof fn lemma_map_refuses(view: TableView, guest_addr: u64, host_addr: u64, flags: u64)
    ensures
        ({
            let r = view.map(guest_addr, host_addr, flags);
            let aligned = guest_addr % 4096 == 0 && host_addr % 4096 == 0;
            let in_range = guest_addr < GUEST_ADDR_LIMIT && host_addr < HOST_ADDR_LIMIT;
            let fresh = !view.mapping.contains_key(guest_addr);
            &&& r == Err::<TableView, MapError>(MapError::Misaligned) <==> !aligned
            &&& r == Err::<TableView, MapError>(MapError::GuestAddrOutOfRange) <==> aligned
                && guest_addr >= GUEST_ADDR_LIMIT
            &&& r == Err::<TableView, MapError>(MapError::HostAddrOutOfRange) <==> aligned
                && guest_addr < GUEST_ADDR_LIMIT && host_addr >= HOST_ADDR_LIMIT
            &&& r == Err::<TableView, MapError>(MapError::InvalidFlags) <==> aligned && in_range
                && !flags_are_valid(flags)
            &&& r == Err::<TableView, MapError>(MapError::AlreadyMapped) <==> aligned && in_range
                && flags_are_valid(flags) && !fresh
            &&& r == Err::<TableView, MapError>(MapError::OutOfMemory) <==> aligned && in_range
                && flags_are_valid(flags) && fresh && view.pages_needed(guest_addr)
                > view.free_pages
        }),
{
    reveal(TableView::map);
}

/// Two addresses in one guest page take the same way through the table and
/// end at the same leaf entry.
proof fn lemma_same_page_same_leaf(t: RawTable, one: u64, other: u64)
    requires
        one as int / 4096 == other as int / 4096,
    ensures
        t.leaf(one) == t.leaf(other),
        forall|level: nat| level <= 3 ==> #[trigger] vpn(one, level) == vpn(other, level),
{
    lemma_page_numbers(one);
    lemma_page_numbers(other);
    assert(one < GUEST_ADDR_LIMIT <==> other < GUEST_ADDR_LIMIT);
    assert(vpn(one, 3) == vpn(other, 3));
    assert(vpn(one, 2) == vpn(other, 2));
    assert(vpn(one, 1) == vpn(other, 1));
    assert(vpn(one, 0) == vpn(other, 0));
    assert(t.table_at(one, 0) == t.table_at(other, 0));
}

/// The page numbers of an address at the four levels follow from one
/// another by division by 512.
proof fn lemma_page_numbers(addr: u64)
    ensures
        (addr as int / 0x1000) / 512 == addr as int / 0x20_0000,
        (addr as int / 0x20_0000) / 512 == addr as int / 0x4000_0000,
        (addr as int / 0x4000_0000) / 512 == addr as int / 0x80_0000_0000,
        (addr as int / 0x80_0000_0000) / 512 == addr as int / 0x1_0000_0000_0000,
{
    let a = addr as int;
    vstd::arithmetic::div_mod::lemma_div_denominator(a, 0x1000, 512);
    vstd::arithmetic::div_mod::lemma_div_denominator(a, 0x20_0000, 512);
    vstd::arithmetic::div_mod::lemma_div_denominator(a, 0x4000_0000, 512);
    vstd::arithmetic::div_mod::lemma_div_denominator(a, 0x80_0000_0000, 512);
    assert(0x1000 * 512 == 0x20_0000int && 0x20_0000 * 512 == 0x4000_0000int && 0x4000_0000 * 512
        == 0x80_0000_0000int && 0x80_0000_0000 * 512 == 0x1_0000_0000_0000int);
}

impl GuestPageTable {
    /// Every address in a mapped guest page leads into the host page that
    /// the guest page is mapped to, at the same offset and with the
    /// permissions of the page.
    pub proof fn lemma_translate_in_page(&self, page: u64, gpa: u64)
        requires
            self.wf(),
            self@.mapping.contains_key(page),
            page <= gpa < page + 4096,
        ensures
            self.raw().translate(gpa) == Some(
                Translation {
                    host_addr: (self@.mapping[page].host_addr + (gpa - page)) as u64,
                    flags: self@.mapping[page].flags,
                },
            ),
            self@.mapping[page].host_addr + (gpa - page) <= u64::MAX,
            self@.mapping[page].host_addr % 4096 == 0,
    {
        let t = self.raw();
        assert(page % 4096 == 0 && t.leaf(page) is Some);
        assert(gpa as int / 4096 == page as int / 4096);
        lemma_same_page_same_leaf(t, gpa, page);
        let entry = t.leaf(page).unwrap();
        assert(pte_addr(entry) <= 0xff_ffff_ffff_f000 && pte_addr(entry) % 4096 == 0)
            by (bit_vector);
        assert(gpa % 4096 == gpa - page);
    }

    /// An address whose guest page is not mapped leads nowhere.
    pub proof fn lemma_translate_unmapped(&self, gpa: u64)
        requires
            self.wf(),
            !self@.mapping.contains_key((gpa / 4096 * 4096) as u64),
        ensures
            self.raw().translate(gpa) is None,
    {
        let t = self.raw();
        let page = (gpa / 4096 * 4096) as u64;
        assert(page as int / 4096 == gpa as int / 4096);
        lemma_same_page_same_leaf(t, gpa, page);
        if t.leaf(gpa) is Some {
            assert(t.mapping().contains_key(page));
        }
    }
}

/// `key` is the address of one of the `count` pages from `guest_addr` on.
pub open spec fn in_run(key: u64, guest_addr: int, count: nat) -> bool {
    guest_addr <= key < guest_addr + 4096 * count && (key - guest_addr) % 4096 == 0
}

/// `mapping` with `count` more guest pages from `guest_addr` on, which lead
/// to the host pages from `host_addr` on with permissions `flags`.
pub open spec fn with_run(
    mapping: Map<u64, Translation>,
    guest_addr: int,
    host_addr: int,
    flags: u64,
    count: nat,
) -> Map<u64, Translation> {
    Map::new(
        |key: u64| mapping.contains_key(key) || in_run(key, guest_addr, count),
        |key: u64|
            if in_run(key, guest_addr, count) {
                Translation { host_addr: (host_addr + (key - guest_addr)) as u64, flags }
            } else {
                mapping[key]
            },
    )
}

/// A run of mappings that none refuses maps every page of the run to the
/// host page that lies as far into the run, and changes no other mapping.
/// Such a run lies on page boundaries and below the limits of the table.
pub proof fn lemma_map_pages_maps_run(
    view: TableView,
    guest_addr: u64,
    host_addr: u64,
    flags: u64,
    count: nat,
)
    requires
        view.map_pages(guest_addr, host_addr, flags, count).error is None,
    ensures
        view.map_pages(guest_addr, host_addr, flags, count).table.mapping == with_run(
            view.mapping,
            guest_addr as int,
            host_addr as int,
            flags,
            count,
        ),
        count > 0 ==> {
            &&& guest_addr + 4096 * count <= GUEST_ADDR_LIMIT
            &&& host_addr + 4096 * count <= HOST_ADDR_LIMIT
            &&& guest_addr % 4096 == 0
            &&& host_addr % 4096 == 0
            &&& flags_are_valid(flags)
        },
    decreases count,
{
    reveal(TableView::map);
    let out = view.map_pages(guest_addr, host_addr, flags, count);
    let target = with_run(view.mapping, guest_addr as int, host_addr as int, flags, count);
    if count == 0 {
        assert(out.table.mapping =~= target);
    } else {
        let next = view.map(guest_addr, host_addr, flags)->Ok_0;
        let rest = (count - 1) as nat;
        let g1 = (guest_addr + 4096) as u64;
        let h1 = (host_addr + 4096) as u64;
        lemma_map_pages_maps_run(next, g1, h1, flags, rest);
        assert(in_run(guest_addr, guest_addr as int, count));
        assert forall|key: u64| in_run(key, guest_addr as int, count) <==> key == guest_addr
            || in_run(key, g1 as int, rest) by {}
        assert(out.table.mapping =~= target);
    }
}

/// Pages that a run of `count` mappings from `guest_addr` on may take from
/// the pool: three for its first page if `first` holds, and three for each
/// page that begins a table at level 0.
spec fn run_budget(guest_addr: int, count: nat, first: bool) -> nat
    decreases count,
{
    if count == 0 {
        0
    } else {
        let here: nat = if first || guest_addr % 0x20_0000 == 0 {
            3
        } else {
            0
        };
        here + run_budget(guest_addr + 4096, (count - 1) as nat, false)
    }
}

/// A run of `count` pages holds at most `count / 512 + 1` pages that begin
/// a table at level 0.
proof fn lemma_run_budget_bound(guest_addr: int, count: nat)
    requires
        0 <= guest_addr,
        guest_addr % 4096 == 0,
    ensures
        run_budget(guest_addr, count, false) == 3 * ((guest_addr / 4096 + count + 511) / 512 - (
        guest_addr / 4096 + 511) / 512),
        run_budget(guest_addr, count, false) <= 3 * (count / 512 + 1),
    decreases count,
{
    let q = guest_addr / 4096;
    if count > 0 {
        lemma_run_budget_bound(guest_addr + 4096, (count - 1) as nat);
        assert((guest_addr + 4096) / 4096 == q + 1);
        assert(guest_addr % 0x20_0000 == 0 <==> q % 512 == 0) by {
            vstd::arithmetic::div_mod::lemma_div_denominator(guest_addr, 4096, 512);
            assert(4096 * 512 == 0x20_0000int);
        }
        assert((q + 1 + 511) / 512 - (q + 511) / 512 == if q % 512 == 0 {
            1int
        } else {
            0int
        });
    }
}

/// A run of mappings goes through if the pool holds what `run_budget` allows
/// it, the tables of the page before the run exist unless the run is the
/// first, and none of its pages is mapped yet.
proof fn lemma_run_goes_through(
    view: TableView,
    guest_addr: u64,
    host_addr: u64,
    flags: u64,
    count: nat,
    first: bool,
)
    requires
        guest_addr % 4096 == 0,
        host_addr % 4096 == 0,
        guest_addr + 4096 * count <= GUEST_ADDR_LIMIT,
        host_addr + 4096 * count <= HOST_ADDR_LIMIT,
        flags_are_valid(flags),
        forall|key: u64| in_run(key, guest_addr as int, count) ==> !view.mapping.contains_key(key),
        view.free_pages >= run_budget(guest_addr as int, count, first),
        !first && count > 0 ==> guest_addr >= 4096 && forall|level: nat|
            level <= 2 ==> view.tables.contains(
                (level, #[trigger] table_base((guest_addr - 4096) as u64, level)),
            ),
    ensures
        view.map_pages(guest_addr, host_addr, flags, count).error is None,
        view.map_pages(guest_addr, host_addr, flags, count).table.free_pages + run_budget(
            guest_addr as int,
            count,
            first,
        ) >= view.free_pages,
    decreases count,
{
    reveal(TableView::map);
    if count > 0 {
        let rest = (count - 1) as nat;
        assert(in_run(guest_addr, guest_addr as int, count));
        if !first && guest_addr % 0x20_0000 != 0 {
            let before = (guest_addr - 4096) as u64;
            let g = guest_addr as int;
            let b = before as int;
            assert(g / 0x20_0000 == b / 0x20_0000);
            assert((g / 0x20_0000) / 512 == g / 0x4000_0000 && (g / 0x4000_0000) / 512 == g
                / 0x80_0000_0000) by {
                vstd::arithmetic::div_mod::lemma_div_denominator(g, 0x20_0000, 512);
                vstd::arithmetic::div_mod::lemma_div_denominator(g, 0x4000_0000, 512);
                assert(0x20_0000 * 512 == 0x4000_0000int && 0x4000_0000 * 512 == 0x80_0000_0000int);
            }
            assert((b / 0x20_0000) / 512 == b / 0x4000_0000 && (b / 0x4000_0000) / 512 == b
                / 0x80_0000_0000) by {
                vstd::arithmetic::div_mod::lemma_div_denominator(b, 0x20_0000, 512);
                vstd::arithmetic::div_mod::lemma_div_denominator(b, 0x4000_0000, 512);
                assert(0x20_0000 * 512 == 0x4000_0000int && 0x4000_0000 * 512 == 0x80_0000_0000int);
            }
            assert(table_base(guest_addr, 0) == table_base(before, 0));
            assert(table_base(guest_addr, 1) == table_base(before, 1));
            assert(table_base(guest_addr, 2) == table_base(before, 2));
            assert(view.pages_needed(guest_addr) == 0);
        }
        assert(view.pages_needed(guest_addr) <= 3);
        let next = view.map(guest_addr, host_addr, flags)->Ok_0;
        assert(view.map(guest_addr, host_addr, flags) is Ok);
        let g1 = (guest_addr + 4096) as u64;
        let h1 = (host_addr + 4096) as u64;
        assert forall|key: u64| in_run(key, g1 as int, rest) implies !next.mapping.contains_key(
            key,
        ) by {
            assert(in_run(key, guest_addr as int, count));
        }
        if rest > 0 {
            assert forall|level: nat| level <= 2 implies next.tables.contains(
                (level, #[trigger] table_base((g1 - 4096) as u64, level)),
            ) by {}
        }
        lemma_run_goes_through(next, g1, h1, flags, rest, false);
    }
}

/// A run of mappings goes through whenever both first addresses lie on
/// page boundaries, the run ends below the limits of the table, the flags
/// are permissions with one of R, W and X among them, none of its pages is
/// mapped yet and the pool holds three pages for every 512 pages of the
/// run, and six more. It takes no more pages than that from the pool.
pub proof fn lemma_map_pages_goes_through(
    view: TableView,
    guest_addr: u64,
    host_addr: u64,
    flags: u64,
    count: nat,
)
    requires
        guest_addr % 4096 == 0,
        host_addr % 4096 == 0,
        guest_addr + 4096 * count <= GUEST_ADDR_LIMIT,
        host_addr + 4096 * count <= HOST_ADDR_LIMIT,
        flags_are_valid(flags),
        forall|key: u64| in_run(key, guest_addr as int, count) ==> !view.mapping.contains_key(key),
        view.free_pages >= 3 * (count / 512 + 2),
    ensures
        view.map_pages(guest_addr, host_addr, flags, count).error is None,
        view.map_pages(guest_addr, host_addr, flags, count).table.free_pages + 3 * (count / 512
            + 2) >= view.free_pages,
{
    if count > 0 {
        lemma_run_budget_bound(guest_addr + 4096, (count - 1) as nat);
        assert(run_budget(guest_addr as int, count, true) == 3 + run_budget(
            guest_addr + 4096,
            (count - 1) as nat,
            false,
        ));
        lemma_run_goes_through(view, guest_addr, host_addr, flags, count, true);
    }
}

} // verus!
