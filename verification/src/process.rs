//! Process management system calls.
use crate::mm::MapPermission;
use crate::mm::PAGE_SIZE;
use crate::mm::PageTable;
use crate::mm::PageTableEntry;
use crate::mm::VirtAddr;
use crate::mm::all_mapped;
use crate::mm::any_mapped;
use crate::mm::is_mapped;
use crate::mm::page_ceil;
use crate::mm::page_floor;
use crate::mm::with_pages;
use crate::mm::without_pages;
use crate::step::FAILED;
use crate::step::Step;
use vstd::bytes::spec_u64_to_le_bytes;
use vstd::bytes::u64_to_le_bytes;
use vstd::prelude::*;

verus! {

/// A time, as reported to users.
#[derive(Clone, Copy, Debug, PartialEq, Eq, Structural)]
pub struct TimeVal {
    /// Whole seconds.
    pub sec: usize,
    /// Microseconds beyond them.
    pub usec: usize,
}

/// Bytes that a time takes up in memory.
pub const TIME_VAL_SIZE: usize = 16;

/// What a call asks of the scheduler.
#[derive(Clone, Copy, Debug, PartialEq, Eq, Structural)]
pub enum SchedRequest {
    /// End the current task with this exit code and run the next one.
    ExitCurrent { exit_code: i32 },
    /// Put the current task at the end of the queue and run the next one.
    SuspendCurrent,
}

/// What a call asks of physical memory.
#[derive(Clone, Copy, Debug, PartialEq, Eq, Structural)]
pub enum MemRequest {
    /// Read the byte at an offset in a physical page.
    Read { ppn: usize, offset: usize },
    /// Write the byte at an offset in a physical page.
    Write { ppn: usize, offset: usize, byte: u8 },
}

/// An area of virtual memory to be mapped.
#[derive(Clone, Copy, Debug, PartialEq, Eq, Structural)]
pub struct MapArea {
    /// Where it starts.
    pub start_va: VirtAddr,
    /// Where it ends.
    pub end_va: VirtAddr,
    /// What user code may do with it.
    pub perm: MapPermission,
}

/// Exit syscall: the task submits an exit code and ends, so the call never
/// returns.
pub fn sys_exit(exit_code: i32) -> (step: Step<SchedRequest>)
    ensures
        step == Step::Perform(SchedRequest::ExitCurrent { exit_code }),
{
    Step::Perform(SchedRequest::ExitCurrent { exit_code })
}

/// Yield syscall: the task gives way to others.
pub fn sys_yield() -> (step: Step<SchedRequest>)
    ensures
        step == Step::PerformThenReturn(SchedRequest::SuspendCurrent, 0),
{
    Step::PerformThenReturn(SchedRequest::SuspendCurrent, 0)
}

/// `us` microseconds as seconds and microseconds.
pub open spec fn time_of(us: usize) -> TimeVal {
    TimeVal { sec: (us as int / 1_000_000) as usize, usec: (us as int % 1_000_000) as usize }
}

/// A time as it lies in memory: two words of eight bytes, lowest byte first.
pub open spec fn time_bytes(time: TimeVal) -> Seq<u8> {
    spec_u64_to_le_bytes(time.sec as u64) + spec_u64_to_le_bytes(time.usec as u64)
}

/// The bytes of a buffer that lies in several pieces.
pub open spec fn pieces(buffers: Seq<Vec<u8>>) -> Seq<Seq<u8>> {
    Seq::new(buffers.len(), |i: int| buffers[i]@)
}

/// `target` with `source` written over its front, as far as it fits.
pub open spec fn overwritten(target: Seq<u8>, source: Seq<u8>) -> Seq<u8> {
    Seq::new(
        target.len(),
        |i: int|
            if i < source.len() {
                source[i]
            } else {
                target[i]
            },
    )
}

impl TimeVal {
    /// The time as it lies in memory.
    pub fn to_bytes(&self) -> (bytes: Vec<u8>)
        ensures
            bytes@ == time_bytes(*self),
            bytes@.len() == TIME_VAL_SIZE,
    {
        let mut bytes: Vec<u8> = u64_to_le_bytes(self.sec as u64);
        let mut rest: Vec<u8> = u64_to_le_bytes(self.usec as u64);
        bytes.append(&mut rest);
        bytes
    }
}

/// Writes `source` over the front of a buffer that lies in several pieces.
fn copy_to_pieces(buffers: &mut Vec<Vec<u8>>, source: &Vec<u8>)
    ensures
        final(buffers)@.len() == old(buffers)@.len(),
        forall|i: int|
            0 <= i < old(buffers)@.len() ==> (#[trigger] final(buffers)@[i])@.len() == old(
                buffers,
            )@[i]@.len(),
        pieces(final(buffers)@).flatten() == overwritten(
            pieces(old(buffers)@).flatten(),
            source@,
        ),
{
    let ghost before = pieces(buffers@);
    let total: usize = source.len();
    let mut written: usize = 0;
    let mut b: usize = 0;
    assert(pieces(buffers@).take(0) =~= Seq::empty());
    assert(before.take(0) =~= Seq::empty());
    assert(overwritten(before.take(0).flatten(), source@) =~= Seq::empty());
    while b < buffers.len()
        invariant
            b <= buffers@.len(),
            total == source@.len(),
            before.len() == buffers@.len(),
            before == pieces(old(buffers)@),
            written <= source@.len(),
            written < source@.len() ==> written == before.take(b as int).flatten().len(),
            written == source@.len() ==> written <= before.take(b as int).flatten().len(),
            forall|i: int| 0 <= i < before.len() ==> (#[trigger] buffers@[i])@.len() == before[i].len(),
            forall|i: int| b <= i < before.len() ==> (#[trigger] buffers@[i])@ == before[i],
            pieces(buffers@).take(b as int).flatten() == overwritten(
                before.take(b as int).flatten(),
                source@,
            ),
        decreases buffers@.len() - b,
    {
        let room: usize = buffers[b].len();
        let left: usize = total - written;
        let copy_len: usize = if room < left {
            room
        } else {
            left
        };
        let ghost earlier = pieces(buffers@);
        let mut k: usize = 0;
        while k < copy_len
            invariant
                k <= copy_len <= room,
                total == source@.len(),
                copy_len <= source@.len() - written,
                written <= source@.len(),
                b < buffers@.len(),
                buffers@.len() == before.len(),
                earlier.len() == before.len(),
                room == before[b as int].len(),
                forall|i: int| 0 <= i < before.len() && i != b ==> (#[trigger] buffers@[i])@ == earlier[i],
                buffers@[b as int]@.len() == room,
                forall|i: int| 0 <= i < k ==> buffers@[b as int]@[i] == source@[written + i],
                forall|i: int| k <= i < room ==> buffers@[b as int]@[i] == before[b as int][i],
            decreases copy_len - k,
        {
            buffers[b][k] = source[written + k];
            k = k + 1;
        }
        proof {
            let now = pieces(buffers@);
            let n = b as int;
            assert(now.take(n) =~= earlier.take(n)) by {
                assert forall|i: int| 0 <= i < n implies #[trigger] now.take(n)[i] =~= earlier.take(n)[i]
                    by {
                    assert(buffers@[i]@ == earlier[i]);
                }
            }
            assert(now.take(n + 1) =~= now.take(n).push(now[n]));
            assert(before.take(n + 1) =~= before.take(n).push(before[n]));
            now.take(n).lemma_flatten_push(now[n]);
            before.take(n).lemma_flatten_push(before[n]);
            assert(now.take(n + 1).flatten() =~= overwritten(
                before.take(n + 1).flatten(),
                source@,
            ));
        }
        written = written + copy_len;
        b = b + 1;
    }
    assert(pieces(buffers@).take(b as int) =~= pieces(buffers@));
    assert(before.take(b as int) =~= before);
}

/// Get time syscall: writes the time to the user's buffer, which lies in one
/// piece per page.
pub fn sys_get_time(us: usize, buffers: &mut Vec<Vec<u8>>) -> (result: isize)
    ensures
        result == 0,
        final(buffers)@.len() == old(buffers)@.len(),
        forall|i: int|
            0 <= i < old(buffers)@.len() ==> (#[trigger] final(buffers)@[i])@.len() == old(
                buffers,
            )@[i]@.len(),
        pieces(final(buffers)@).flatten() == overwritten(
            pieces(old(buffers)@).flatten(),
            time_bytes(time_of(us)),
        ),
{
    let time_val = TimeVal { sec: us / 1_000_000, usec: us % 1_000_000 };
    let bytes: Vec<u8> = time_val.to_bytes();
    copy_to_pieces(buffers, &bytes);
    0
}

/// Whether a trace call may read a byte at `addr`.
pub open spec fn may_read(table: Map<usize, PageTableEntry>, addr: usize) -> bool {
    let vpn = page_floor(addr as int) as usize;
    is_mapped(table, vpn) && table[vpn].readable && table[vpn].user
}

/// Whether a trace call may write a byte at `addr`.
pub open spec fn may_write(table: Map<usize, PageTableEntry>, addr: usize) -> bool {
    let vpn = page_floor(addr as int) as usize;
    is_mapped(table, vpn) && table[vpn].writable && table[vpn].user
}

/// Number of the physical page that `addr` is in.
pub open spec fn frame_of(table: Map<usize, PageTableEntry>, addr: usize) -> usize {
    table[page_floor(addr as int) as usize].ppn
}

/// How a trace call goes on: request 0 reads the byte at `id`, request 1 writes
/// the lowest byte of `data` there, and anything else fails, as does an address
/// that user code could not read or write itself.
pub open spec fn trace_step(
    table: Map<usize, PageTableEntry>,
    trace_request: usize,
    id: usize,
    data: usize,
) -> Step<MemRequest> {
    if trace_request == 0 && may_read(table, id) {
        Step::Perform(
            MemRequest::Read { ppn: frame_of(table, id), offset: (id % PAGE_SIZE) as usize },
        )
    } else if trace_request == 1 && may_write(table, id) {
        Step::PerformThenReturn(
            MemRequest::Write {
                ppn: frame_of(table, id),
                offset: (id % PAGE_SIZE) as usize,
                byte: (data as int % 256) as u8,
            },
            0,
        )
    } else {
        Step::Return(FAILED)
    }
}

/// Trace syscall: read or write one byte of the user's memory.
pub fn sys_trace(page_table: &PageTable, trace_request: usize, id: usize, data: usize) -> (step: Step<
    MemRequest,
>)
    ensures
        step == trace_step(page_table@, trace_request, id, data),
        trace_request == 0 && page_table@.contains_key((id / PAGE_SIZE) as usize) ==> {
            let pte = page_table@[(id / PAGE_SIZE) as usize];
            step == (if pte.valid && pte.readable && pte.user {
                Step::Perform(MemRequest::Read { ppn: pte.ppn, offset: (id % PAGE_SIZE) as usize })
            } else {
                Step::Return(FAILED)
            })
        },
        trace_request == 1 && page_table@.contains_key((id / PAGE_SIZE) as usize) ==> {
            let pte = page_table@[(id / PAGE_SIZE) as usize];
            step == (if pte.valid && pte.writable && pte.user {
                Step::PerformThenReturn(
                    MemRequest::Write {
                        ppn: pte.ppn,
                        offset: (id % PAGE_SIZE) as usize,
                        byte: (data as int % 256) as u8,
                    },
                    0,
                )
            } else {
                Step::Return(FAILED)
            })
        },
        trace_request > 1 || !page_table@.contains_key((id / PAGE_SIZE) as usize) ==> step
            == Step::<MemRequest>::Return(FAILED),
{
    match trace_request {
        0 => {
            let va = VirtAddr(id);
            let vpn: usize = va.floor();
            if let Some(pte) = page_table.translate(vpn) {
                if !pte.valid || !pte.readable {
                    return Step::Return(FAILED);
                }
                if !pte.user {
                    return Step::Return(FAILED);
                }
                Step::Perform(MemRequest::Read { ppn: pte.ppn, offset: va.page_offset() })
            } else {
                Step::Return(FAILED)
            }
        },
        1 => {
            let va = VirtAddr(id);
            let vpn: usize = va.floor();
            if let Some(pte) = page_table.translate(vpn) {
                if !pte.valid || !pte.writable {
                    return Step::Return(FAILED);
                }
                if !pte.user {
                    return Step::Return(FAILED);
                }
                let byte: u8 = (data % 256) as u8;
                Step::PerformThenReturn(
                    MemRequest::Write { ppn: pte.ppn, offset: va.page_offset(), byte },
                    0,
                )
            } else {
                Step::Return(FAILED)
            }
        },
        _ => Step::Return(FAILED),
    }
}

/// Result of a trace call that has read `byte`.
pub fn trace_read(byte: u8) -> (result: isize)
    ensures
        result == byte,
{
    byte as isize
}

/// Length of the pages that `len` bytes take up.
pub open spec fn rounded_len(len: usize) -> int {
    page_ceil(len as int) * PAGE_SIZE
}

/// Whether `prot` asks for reading, writing or executing, and nothing else.
pub open spec fn prot_valid(prot: usize) -> bool {
    0 < prot < 8
}

/// The permission that `prot` stands for: bit 0 is reading, bit 1 writing, bit 2
/// executing. User code can always reach the pages.
pub open spec fn permission_of(prot: usize) -> MapPermission {
    MapPermission { r: prot & 0x1 != 0, w: prot & 0x2 != 0, x: prot & 0x4 != 0, u: true }
}

/// The area that `len` bytes from `start` on take up.
pub open spec fn area_of(start: usize, len: usize, prot: usize) -> MapArea {
    MapArea {
        start_va: VirtAddr(start),
        end_va: VirtAddr((start + rounded_len(len)) as usize),
        perm: permission_of(prot),
    }
}

impl MapArea {
    /// Its first page.
    pub open spec fn first_page(self) -> int {
        page_floor(self.start_va.0 as int)
    }

    /// The page after its last.
    pub open spec fn end_page(self) -> int {
        page_ceil(self.end_va.0 as int)
    }
}

impl MapArea {
    /// Number of its pages.
    pub fn page_count(&self) -> (pages: usize)
        ensures
            pages == (if self.first_page() < self.end_page() {
                self.end_page() - self.first_page()
            } else {
                0
            }),
    {
        let first: usize = self.start_va.floor();
        let end: usize = self.end_va.ceil();
        if first < end {
            end - first
        } else {
            0
        }
    }
}

/// Whether the area that `len` bytes from `start` on take up in whole pages ends
/// within the address space.
pub fn area_fits(start: usize, len: usize) -> (fits: bool)
    ensures
        fits == (start + rounded_len(len) <= usize::MAX),
{
    let pages: usize = VirtAddr(len).ceil();
    pages <= (usize::MAX - start) / PAGE_SIZE
}

/// Whether a map call can be made: its area ends within the address space, or
/// its arguments are refused before the area matters.
pub fn mmap_possible(start: usize, len: usize, prot: usize) -> (possible: bool)
    ensures
        possible == (start % PAGE_SIZE == 0 && prot_valid(prot) ==> start + rounded_len(len)
            <= usize::MAX),
{
    if start % PAGE_SIZE != 0 || prot == 0 || prot >= 8 {
        return true;
    }
    area_fits(start, len)
}

/// The end of the area that `len` bytes from `start` on take up in whole pages.
fn area_end(start: usize, len: usize) -> (end: usize)
    requires
        start + rounded_len(len) <= usize::MAX,
    ensures
        end == start + rounded_len(len),
{
    let pages: usize = VirtAddr(len).ceil();
    start + pages * PAGE_SIZE
}

/// Map syscall, up to the point where frames are needed.
///
/// The start has to be at a page boundary, the permission has to be valid, and
/// no page of the area may be mapped.
pub fn sys_mmap(page_table: &PageTable, start: usize, len: usize, prot: usize) -> (step: Step<MapArea>)
    requires
        start % PAGE_SIZE == 0 && prot_valid(prot) ==> start + rounded_len(len) <= usize::MAX,
    ensures
        step == (if start % PAGE_SIZE == 0 && prot_valid(prot) && !any_mapped(
            page_table@,
            area_of(start, len, prot).first_page(),
            area_of(start, len, prot).end_page(),
        ) {
            Step::Perform(area_of(start, len, prot))
        } else {
            Step::Return(FAILED)
        }),
        step is Perform ==> {
            &&& start % PAGE_SIZE == 0
            &&& 1 <= prot <= 7
            &&& step->Perform_0.start_va.0 == start
            &&& start + len <= step->Perform_0.end_va.0 < start + len + PAGE_SIZE
            &&& step->Perform_0.end_va.0 % PAGE_SIZE == 0
            &&& step->Perform_0.perm.r == (prot & 0x1 != 0)
            &&& step->Perform_0.perm.w == (prot & 0x2 != 0)
            &&& step->Perform_0.perm.x == (prot & 0x4 != 0)
            &&& step->Perform_0.perm.u
        },
{
    if start % PAGE_SIZE != 0 {
        return Step::Return(FAILED);
    }
    proof {
        assert((prot & !0x7usize != 0) == (prot >= 8)) by (bit_vector);
        assert(prot < 8 ==> ((prot & 0x7usize == 0) == (prot == 0))) by (bit_vector);
    }
    if prot & !0x7 != 0 {
        return Step::Return(FAILED);
    }
    if prot & 0x7 == 0 {
        return Step::Return(FAILED);
    }
    let mut perm = MapPermission { r: false, w: false, x: false, u: true };
    if prot & 0x1 != 0 {
        perm.r = true;
    }
    if prot & 0x2 != 0 {
        perm.w = true;
    }
    if prot & 0x4 != 0 {
        perm.x = true;
    }
    let start_va = VirtAddr(start);
    let end_va = VirtAddr(area_end(start, len));
    if page_table.any_page_mapped(start_va.floor(), end_va.ceil()) {
        return Step::Return(FAILED);
    }
    Step::Perform(MapArea { start_va, end_va, perm })
}

/// Map syscall, once a frame has been set aside for each page of the area: checks
/// again that no page of it is mapped, and maps them all.
pub fn mmap_insert(page_table: &mut PageTable, area: MapArea, frames: &Vec<usize>) -> (result: isize)
    requires
        !any_mapped(old(page_table)@, area.first_page(), area.end_page()) ==> area.end_page()
            - area.first_page() <= frames@.len(),
    ensures
        any_mapped(old(page_table)@, area.first_page(), area.end_page()) ==> result == FAILED
            && final(page_table)@ == old(page_table)@,
        !any_mapped(old(page_table)@, area.first_page(), area.end_page()) ==> result == 0
            && final(page_table)@ == with_pages(
            old(page_table)@,
            area.first_page(),
            area.end_page(),
            area.perm,
            frames@,
        ),
        result == 0 ==> forall|vpn: usize|
            area.first_page() <= vpn < area.end_page() ==> {
                let pte = #[trigger] final(page_table)@[vpn];
                &&& final(page_table)@.contains_key(vpn)
                &&& pte.valid
                &&& pte.ppn == frames@[vpn - area.first_page()]
                &&& pte.readable == area.perm.r
                &&& pte.writable == area.perm.w
                &&& pte.executable == area.perm.x
                &&& pte.user == area.perm.u
            },
        forall|vpn: usize|
            !(area.first_page() <= vpn < area.end_page()) ==> {
                &&& #[trigger] final(page_table)@.contains_key(vpn) == old(page_table)@.contains_key(
                    vpn,
                )
                &&& old(page_table)@.contains_key(vpn) ==> final(page_table)@[vpn] == old(
                    page_table,
                )@[vpn]
            },
{
    let start_vpn: usize = area.start_va.floor();
    let end_vpn: usize = area.end_va.ceil();
    if page_table.any_page_mapped(start_vpn, end_vpn) {
        return FAILED;
    }
    page_table.insert_framed_area(start_vpn, end_vpn, area.perm, frames);
    0
}

/// The page after the last one that an unmap call reaches.
pub open spec fn unmap_end(start: usize, len: usize) -> int {
    page_ceil(start + rounded_len(len))
}

/// Unmap syscall: fails unless every page of the area is mapped, and takes the
/// mappings away.
pub fn sys_munmap(page_table: &mut PageTable, start: usize, len: usize) -> (result: isize)
    requires
        start + rounded_len(len) <= usize::MAX,
    ensures
        !all_mapped(old(page_table)@, page_floor(start as int), unmap_end(start, len)) ==> result
            == FAILED && final(page_table)@ == old(page_table)@,
        all_mapped(old(page_table)@, page_floor(start as int), unmap_end(start, len)) ==> result
            == 0 && final(page_table)@ == without_pages(
            old(page_table)@,
            page_floor(start as int),
            unmap_end(start, len),
        ),
        result == 0 ==> !any_mapped(
            final(page_table)@,
            page_floor(start as int),
            unmap_end(start, len),
        ),
        result == 0 ==> forall|vpn: usize|
            page_floor(start as int) <= vpn < unmap_end(start, len)
                && #[trigger] final(page_table)@.contains_key(vpn)
                ==> !final(page_table)@[vpn].valid,
        forall|vpn: usize|
            !(page_floor(start as int) <= vpn < unmap_end(start, len)) ==> {
                &&& #[trigger] final(page_table)@.contains_key(vpn) == old(page_table)@.contains_key(
                    vpn,
                )
                &&& old(page_table)@.contains_key(vpn) ==> final(page_table)@[vpn] == old(
                    page_table,
                )@[vpn]
            },
{
    let start_vpn: usize = VirtAddr(start).floor();
    let end_vpn: usize = VirtAddr(area_end(start, len)).ceil();
    if !page_table.all_pages_mapped(start_vpn, end_vpn) {
        return FAILED;
    }
    page_table.unmap_pages(start_vpn, end_vpn);
    0
}

/// A change of the data segment's size.
#[derive(Clone, Copy, Debug, PartialEq, Eq, Structural)]
pub struct BrkRequest {
    /// By how much the end of the segment moves.
    pub size: i32,
}

/// Change data segment size.
pub fn sys_sbrk(size: i32) -> (step: Step<BrkRequest>)
    ensures
        step == Step::Perform(BrkRequest { size }),
{
    Step::Perform(BrkRequest { size })
}

/// Change data segment size, once that has been tried: the result is where the
/// segment ended before, or a failure where its size could not be changed.
pub fn sbrk_changed(old_brk: Option<usize>) -> (result: isize)
    ensures
        result == (match old_brk {
            Some(brk) => brk as isize,
            None => FAILED,
        }),
{
    if let Some(brk) = old_brk {
        brk as isize
    } else {
        FAILED
    }
}

} // verus!
