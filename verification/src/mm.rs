//! User address spaces: pages, permissions and page tables.
use std::collections::BTreeMap;
use vstd::prelude::*;

verus! {

/// Bytes in a page.
pub const PAGE_SIZE: usize = 0x1000;

/// Number of the page that `addr` is in.
pub open spec fn page_floor(addr: int) -> int {
    addr / (PAGE_SIZE as int)
}

/// Number of the first page that starts at or after `addr`.
pub open spec fn page_ceil(addr: int) -> int {
    (addr + PAGE_SIZE - 1) / (PAGE_SIZE as int)
}

/// A virtual address.
#[derive(Clone, Copy, Debug, PartialEq, Eq, Structural)]
pub struct VirtAddr(pub usize);

impl VirtAddr {
    /// Number of the page that the address is in.
    pub fn floor(&self) -> (vpn: usize)
        ensures
            vpn == page_floor(self.0 as int),
    {
        self.0 / PAGE_SIZE
    }

    /// Number of the first page that starts at or after the address.
    pub fn ceil(&self) -> (vpn: usize)
        ensures
            vpn == page_ceil(self.0 as int),
    {
        if self.0 % PAGE_SIZE == 0 {
            self.0 / PAGE_SIZE
        } else {
            self.0 / PAGE_SIZE + 1
        }
    }

    /// Offset of the address in its page.
    pub fn page_offset(&self) -> (offset: usize)
        ensures
            offset == self.0 % PAGE_SIZE,
    {
        self.0 % PAGE_SIZE
    }
}

/// What user code may do with the pages of an area.
#[derive(Clone, Copy, Debug, PartialEq, Eq, Structural)]
pub struct MapPermission {
    /// Read.
    pub r: bool,
    /// Write.
    pub w: bool,
    /// Execute.
    pub x: bool,
    /// Reach them at all.
    pub u: bool,
}

/// An entry of a page table.
#[derive(Clone, Copy, Debug, PartialEq, Eq, Structural)]
pub struct PageTableEntry {
    /// Number of the physical page.
    pub ppn: usize,
    /// Whether the entry maps a page.
    pub valid: bool,
    /// Whether the page may be read.
    pub readable: bool,
    /// Whether the page may be written.
    pub writable: bool,
    /// Whether the page may be executed.
    pub executable: bool,
    /// Whether user code may reach the page.
    pub user: bool,
}

/// The entry that maps nothing.
pub open spec fn empty_entry() -> PageTableEntry {
    PageTableEntry {
        ppn: 0,
        valid: false,
        readable: false,
        writable: false,
        executable: false,
        user: false,
    }
}

/// The entry that maps frame `ppn` with permission `perm`.
pub open spec fn entry_for(ppn: usize, perm: MapPermission) -> PageTableEntry {
    PageTableEntry {
        ppn,
        valid: true,
        readable: perm.r,
        writable: perm.w,
        executable: perm.x,
        user: perm.u,
    }
}

/// Whether page `vpn` is mapped.
pub open spec fn is_mapped(table: Map<usize, PageTableEntry>, vpn: usize) -> bool {
    table.contains_key(vpn) && table[vpn].valid
}

/// Whether some page from `lo` up to `hi` is mapped.
pub open spec fn any_mapped(table: Map<usize, PageTableEntry>, lo: int, hi: int) -> bool {
    exists|vpn: usize| lo <= vpn < hi && #[trigger] is_mapped(table, vpn)
}

/// Whether every page from `lo` up to `hi` is mapped.
pub open spec fn all_mapped(table: Map<usize, PageTableEntry>, lo: int, hi: int) -> bool {
    forall|vpn: usize| lo <= vpn < hi ==> #[trigger] is_mapped(table, vpn)
}

/// `table` with the pages from `lo` up to `hi` mapped to `frames`, in order.
pub open spec fn with_pages(
    table: Map<usize, PageTableEntry>,
    lo: int,
    hi: int,
    perm: MapPermission,
    frames: Seq<usize>,
) -> Map<usize, PageTableEntry> {
    Map::new(
        |vpn: usize| lo <= vpn < hi || table.contains_key(vpn),
        |vpn: usize|
            if lo <= vpn < hi {
                entry_for(frames[vpn - lo], perm)
            } else {
                table[vpn]
            },
    )
}

/// `table` with nothing mapped from page `lo` up to `hi`.
pub open spec fn without_pages(table: Map<usize, PageTableEntry>, lo: int, hi: int) -> Map<
    usize,
    PageTableEntry,
> {
    Map::new(
        |vpn: usize| lo <= vpn < hi || table.contains_key(vpn),
        |vpn: usize|
            if lo <= vpn < hi {
                empty_entry()
            } else {
                table[vpn]
            },
    )
}

/// The page table of an address space.
pub struct PageTable {
    /// Entries by page number. A page without an entry is not mapped.
    pub entries: BTreeMap<usize, PageTableEntry>,
}

impl View for PageTable {
    type V = Map<usize, PageTableEntry>;

    open spec fn view(&self) -> Map<usize, PageTableEntry> {
        self.entries@
    }
}

impl PageTable {
    /// A table that maps nothing.
    pub fn new() -> (table: Self)
        ensures
            table@ == Map::<usize, PageTableEntry>::empty(),
    {
        PageTable { entries: BTreeMap::new() }
    }

    /// The entry of page `vpn`, if there is one.
    pub fn translate(&self, vpn: usize) -> (entry: Option<PageTableEntry>)
        ensures
            entry == (if self@.contains_key(vpn) {
                Some(self@[vpn])
            } else {
                None
            }),
    {
        match self.entries.get(&vpn) {
            Some(entry) => Some(*entry),
            None => None,
        }
    }

    /// Maps page `vpn` to frame `ppn`.
    pub fn map(&mut self, vpn: usize, ppn: usize, perm: MapPermission)
        ensures
            final(self)@ == old(self)@.insert(vpn, entry_for(ppn, perm)),
    {
        self.entries.insert(
            vpn,
            PageTableEntry {
                ppn,
                valid: true,
                readable: perm.r,
                writable: perm.w,
                executable: perm.x,
                user: perm.u,
            },
        );
    }

    /// Takes the mapping of page `vpn` away.
    pub fn unmap(&mut self, vpn: usize)
        ensures
            final(self)@ == old(self)@.insert(vpn, empty_entry()),
    {
        self.entries.insert(
            vpn,
            PageTableEntry {
                ppn: 0,
                valid: false,
                readable: false,
                writable: false,
                executable: false,
                user: false,
            },
        );
    }

    /// Whether some page from `lo` up to `hi` is mapped.
    pub fn any_page_mapped(&self, lo: usize, hi: usize) -> (found: bool)
        ensures
            found == any_mapped(self@, lo as int, hi as int),
    {
        let mut vpn: usize = lo;
        while vpn < hi
            invariant
                lo <= vpn,
                vpn <= hi || vpn == lo,
                forall|v: usize| lo <= v < vpn ==> !#[trigger] is_mapped(self@, v),
            decreases hi - vpn,
        {
            if let Some(entry) = self.translate(vpn) {
                if entry.valid {
                    assert(is_mapped(self@, vpn));
                    return true;
                }
            }
            vpn = vpn + 1;
        }
        false
    }

    /// Whether every page from `lo` up to `hi` is mapped.
    pub fn all_pages_mapped(&self, lo: usize, hi: usize) -> (found: bool)
        ensures
            found == all_mapped(self@, lo as int, hi as int),
    {
        let mut vpn: usize = lo;
        while vpn < hi
            invariant
                lo <= vpn,
                vpn <= hi || vpn == lo,
                forall|v: usize| lo <= v < vpn ==> #[trigger] is_mapped(self@, v),
            decreases hi - vpn,
        {
            if let Some(entry) = self.translate(vpn) {
                if !entry.valid {
                    assert(!is_mapped(self@, vpn));
                    return false;
                }
            } else {
                assert(!is_mapped(self@, vpn));
                return false;
            }
            vpn = vpn + 1;
        }
        true
    }

    /// Maps the pages from `lo` up to `hi` to `frames`, in order.
    pub fn insert_framed_area(
        &mut self,
        lo: usize,
        hi: usize,
        perm: MapPermission,
        frames: &Vec<usize>,
    )
        requires
            hi - lo <= frames@.len(),
        ensures
            final(self)@ == with_pages(old(self)@, lo as int, hi as int, perm, frames@),
    {
        let ghost before = self@;
        let mut vpn: usize = lo;
        assert(self@ =~= with_pages(before, lo as int, lo as int, perm, frames@));
        while vpn < hi
            invariant
                lo <= vpn,
                vpn <= hi || vpn == lo,
                hi - lo <= frames@.len(),
                self@ == with_pages(before, lo as int, vpn as int, perm, frames@),
            decreases hi - vpn,
        {
            self.map(vpn, frames[vpn - lo], perm);
            assert(self@ =~= with_pages(before, lo as int, vpn + 1, perm, frames@));
            vpn = vpn + 1;
        }
        assert(self@ =~= with_pages(before, lo as int, hi as int, perm, frames@));
    }

    /// Takes the mappings of the pages from `lo` up to `hi` away.
    pub fn unmap_pages(&mut self, lo: usize, hi: usize)
        ensures
            final(self)@ == without_pages(old(self)@, lo as int, hi as int),
    {
        let ghost before = self@;
        let mut vpn: usize = lo;
        assert(self@ =~= without_pages(before, lo as int, lo as int));
        while vpn < hi
            invariant
                lo <= vpn,
                vpn <= hi || vpn == lo,
                self@ == without_pages(before, lo as int, vpn as int),
            decreases hi - vpn,
        {
            self.unmap(vpn);
            assert(self@ =~= without_pages(before, lo as int, vpn + 1));
            vpn = vpn + 1;
        }
        assert(self@ =~= without_pages(before, lo as int, hi as int));
    }
}

} // verus!
