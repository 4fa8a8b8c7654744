//! What holds of the process management calls as a whole.
use crate::mm::MapPermission;
use crate::mm::PAGE_SIZE;
use crate::mm::PageTableEntry;
use crate::mm::all_mapped;
use crate::mm::any_mapped;
use crate::mm::is_mapped;
use crate::mm::page_ceil;
use crate::mm::page_floor;
use crate::mm::with_pages;
use crate::mm::without_pages;
use crate::process::MapArea;
use crate::process::MemRequest;
use crate::process::TimeVal;
use crate::process::area_of;
use crate::process::frame_of;
use crate::process::may_read;
use crate::process::may_write;
use crate::process::overwritten;
use crate::process::pieces;
use crate::process::prot_valid;
use crate::process::rounded_len;
use crate::process::time_bytes;
use crate::process::time_of;
use crate::process::trace_step;
use crate::process::unmap_end;
use crate::step::FAILED;
use crate::step::Step;
use vstd::bytes::lemma_auto_spec_u64_to_from_le_bytes;
use vstd::bytes::spec_u64_from_le_bytes;
use vstd::bytes::spec_u64_to_le_bytes;
use vstd::prelude::*;

verus! {

/// Seconds and microseconds together are the time that was measured, and there
/// is always less than a second of microseconds.
pub proof fn law_time_is_split(us: usize)
    ensures
        time_of(us).sec * 1_000_000 + time_of(us).usec == us,
        time_of(us).usec < 1_000_000,
{
}

/// A buffer with room for a time, in however many pieces, holds afterwards the
/// seconds and then the microseconds, and behind them what it held before.
pub proof fn law_time_is_read_back(us: usize, buffer: Seq<u8>)
    requires
        buffer.len() >= 16,
    ensures
        ({
            let after = overwritten(buffer, time_bytes(time_of(us)));
            &&& spec_u64_from_le_bytes(after.subrange(0, 8)) == time_of(us).sec
            &&& spec_u64_from_le_bytes(after.subrange(8, 16)) == time_of(us).usec
            &&& after.skip(16) == buffer.skip(16)
            &&& after.len() == buffer.len()
        }),
{
    lemma_auto_spec_u64_to_from_le_bytes();
    let time = time_of(us);
    let after = overwritten(buffer, time_bytes(time));
    assert(after.subrange(0, 8) =~= spec_u64_to_le_bytes(time.sec as u64));
    assert(after.subrange(8, 16) =~= spec_u64_to_le_bytes(time.usec as u64));
    assert(after.skip(16) =~= buffer.skip(16));
}

/// An area takes up as many pages as are needed for its length, and a map and an
/// unmap call for the same bytes mean the same pages.
pub proof fn law_area_pages(start: usize, len: usize, prot: usize)
    requires
        start % PAGE_SIZE == 0,
        start + rounded_len(len) <= usize::MAX,
    ensures
        area_of(start, len, prot).end_page() - area_of(start, len, prot).first_page() == page_ceil(
            len as int,
        ),
        area_of(start, len, prot).first_page() == page_floor(start as int),
        area_of(start, len, prot).end_page() == unmap_end(start, len),
{
}

/// Mapping an area maps all of its pages and leaves every other page as it was.
/// An area with a page in it cannot be mapped a second time.
pub proof fn law_mapped_area_is_mapped(
    table: Map<usize, PageTableEntry>,
    start: usize,
    len: usize,
    prot: usize,
    frames: Seq<usize>,
)
    requires
        start % PAGE_SIZE == 0,
        start + rounded_len(len) <= usize::MAX,
    ensures
        ({
            let area = area_of(start, len, prot);
            let lo = area.first_page();
            let hi = area.end_page();
            let after = with_pages(table, lo, hi, area.perm, frames);
            &&& all_mapped(after, lo, hi)
            &&& forall|vpn: usize|
                !(lo <= vpn < hi) ==> #[trigger] is_mapped(after, vpn) == is_mapped(table, vpn)
            &&& forall|vpn: usize|
                !(lo <= vpn < hi) && #[trigger] is_mapped(table, vpn) ==> after[vpn] == table[vpn]
            &&& len > 0 ==> any_mapped(after, lo, hi)
        }),
{
    let area = area_of(start, len, prot);
    let lo = area.first_page();
    let hi = area.end_page();
    let after = with_pages(table, lo, hi, area.perm, frames);
    if len > 0 {
        assert(is_mapped(after, lo as usize));
    }
}

/// Unmapping what was just mapped brings every page back to what it was, so the
/// area can be mapped again and, unless it is empty, cannot be unmapped again.
pub proof fn law_unmap_undoes_map(
    table: Map<usize, PageTableEntry>,
    start: usize,
    len: usize,
    prot: usize,
    frames: Seq<usize>,
)
    requires
        start % PAGE_SIZE == 0,
        start + rounded_len(len) <= usize::MAX,
        !any_mapped(
            table,
            area_of(start, len, prot).first_page(),
            area_of(start, len, prot).end_page(),
        ),
    ensures
        ({
            let area = area_of(start, len, prot);
            let lo = area.first_page();
            let hi = area.end_page();
            let mapped = with_pages(table, lo, hi, area.perm, frames);
            let after = without_pages(mapped, page_floor(start as int), unmap_end(start, len));
            &&& all_mapped(mapped, page_floor(start as int), unmap_end(start, len))
            &&& forall|vpn: usize| #[trigger] is_mapped(after, vpn) == is_mapped(table, vpn)
            &&& forall|vpn: usize| #[trigger] is_mapped(table, vpn) ==> after[vpn] == table[vpn]
            &&& !any_mapped(after, lo, hi)
            &&& len > 0 ==> !all_mapped(after, page_floor(start as int), unmap_end(start, len))
        }),
{
    let area = area_of(start, len, prot);
    let lo = area.first_page();
    let hi = area.end_page();
    let mapped = with_pages(table, lo, hi, area.perm, frames);
    let after = without_pages(mapped, lo, hi);
    law_area_pages(start, len, prot);
    law_mapped_area_is_mapped(table, start, len, prot, frames);
    assert forall|vpn: usize| #[trigger] is_mapped(after, vpn) == is_mapped(table, vpn) by {
        if lo <= vpn < hi {
            assert(!is_mapped(table, vpn));
        }
    }
    if len > 0 {
        assert(!is_mapped(after, lo as usize));
    }
}

/// In a mapped area user code may read exactly if it asked for reading, write
/// exactly if it asked for writing and execute exactly if it asked for executing,
/// each whatever else it asked for.
pub proof fn law_mapped_area_has_its_permission(
    table: Map<usize, PageTableEntry>,
    start: usize,
    len: usize,
    prot: usize,
    frames: Seq<usize>,
    addr: usize,
)
    requires
        start % PAGE_SIZE == 0,
        prot_valid(prot),
        start + rounded_len(len) <= usize::MAX,
        start <= addr < start + rounded_len(len),
    ensures
        ({
            let area = area_of(start, len, prot);
            let after = with_pages(table, area.first_page(), area.end_page(), area.perm, frames);
            let pte = after[(addr / PAGE_SIZE) as usize];
            &&& may_read(after, addr) == (prot & 0x1 != 0)
            &&& may_write(after, addr) == (prot & 0x2 != 0)
            &&& after.contains_key((addr / PAGE_SIZE) as usize)
            &&& pte.valid
            &&& pte.user
            &&& pte.readable == (prot & 0x1 != 0)
            &&& pte.writable == (prot & 0x2 != 0)
            &&& pte.executable == (prot & 0x4 != 0)
        }),
{
}

/// The permissions that can be asked for are the sets of reading, writing and
/// executing with something in them.
pub proof fn law_valid_permissions(prot: usize)
    ensures
        prot_valid(prot) <==> prot & !0x7 == 0 && (prot & 0x1 != 0 || prot & 0x2 != 0 || prot & 0x4
            != 0),
{
    assert((0 < prot < 8) == (prot & !0x7usize == 0 && (prot & 0x1 != 0 || prot & 0x2 != 0 || prot
        & 0x4 != 0))) by (bit_vector);
}

/// An address lies in the page that it is counted to, and the page counted to
/// start at or after it is the first to do so.
pub proof fn law_page_of_an_address(addr: int)
    ensures
        page_floor(addr) * 4096 <= addr < (page_floor(addr) + 1) * 4096,
        (page_ceil(addr) - 1) * 4096 < addr <= page_ceil(addr) * 4096,
{
}

/// A length is rounded up to whole pages, by less than a page.
pub proof fn law_length_is_rounded_up(len: usize)
    ensures
        rounded_len(len) % 4096 == 0,
        len <= rounded_len(len) < len + 4096,
{
}

/// The area of a map call starts where the call said, ends at the first page
/// boundary at or after the bytes asked for, and its pages are those in which one
/// of its addresses lies.
pub proof fn law_area_covers_what_was_asked_for(start: usize, len: usize, prot: usize, vpn: int)
    requires
        start % PAGE_SIZE == 0,
        start + rounded_len(len) <= usize::MAX,
    ensures
        ({
            let area = area_of(start, len, prot);
            &&& area.start_va.0 == start
            &&& area.end_va.0 % 4096 == 0
            &&& start + len <= area.end_va.0 < start + len + 4096
            &&& (area.first_page() <= vpn < area.end_page()) == (start <= vpn * 4096 && vpn * 4096
                < start + len)
            &&& area.perm.r == (prot & 0x1 != 0)
            &&& area.perm.w == (prot & 0x2 != 0)
            &&& area.perm.x == (prot & 0x4 != 0)
            &&& area.perm.u
        }),
{
}

/// The pages of an area are those that overlap it.
pub proof fn law_area_has_the_overlapping_pages(area: MapArea, vpn: int)
    ensures
        (area.first_page() <= vpn < area.end_page()) == (area.start_va.0 < (vpn + 1) * 4096 && vpn
            * 4096 < area.end_va.0),
{
}

/// An unmap call reaches the pages that overlap the bytes from `start` on, as
/// many as `len` bytes take up in whole pages.
pub proof fn law_unmap_reaches_overlapping_pages(start: usize, len: usize, vpn: int)
    ensures
        (page_floor(start as int) <= vpn < unmap_end(start, len)) == (start < (vpn + 1) * 4096
            && vpn * 4096 < start + rounded_len(len)),
{
}

/// Some page of a range is mapped if one with a valid entry is in it.
pub proof fn law_valid_page_in_range_is_found(
    table: Map<usize, PageTableEntry>,
    lo: int,
    hi: int,
    vpn: usize,
)
    requires
        lo <= vpn < hi,
        table.contains_key(vpn),
        table[vpn].valid,
    ensures
        any_mapped(table, lo, hi),
{
    assert(is_mapped(table, vpn));
}

/// Where some page of a range is mapped, one with a valid entry is in it.
pub proof fn law_mapped_range_has_a_valid_page(
    table: Map<usize, PageTableEntry>,
    lo: int,
    hi: int,
) -> (vpn: usize)
    requires
        any_mapped(table, lo, hi),
    ensures
        lo <= vpn < hi,
        table.contains_key(vpn),
        table[vpn].valid,
{
    choose|vpn: usize| lo <= vpn < hi && #[trigger] is_mapped(table, vpn)
}

/// Where every page of a range is mapped, each of them has a valid entry.
pub proof fn law_fully_mapped_range_has_valid_pages(
    table: Map<usize, PageTableEntry>,
    lo: int,
    hi: int,
    vpn: usize,
)
    requires
        all_mapped(table, lo, hi),
        lo <= vpn < hi,
    ensures
        table.contains_key(vpn),
        table[vpn].valid,
{
    assert(is_mapped(table, vpn));
}

/// Where a range is not mapped in full, one of its pages has no valid entry.
pub proof fn law_hole_has_no_valid_page(
    table: Map<usize, PageTableEntry>,
    lo: int,
    hi: int,
) -> (vpn: usize)
    requires
        !all_mapped(table, lo, hi),
    ensures
        lo <= vpn < hi,
        !table.contains_key(vpn) || !table[vpn].valid,
{
    choose|vpn: usize| lo <= vpn < hi && !#[trigger] is_mapped(table, vpn)
}

/// Mapping a range gives each of its pages its own frame, in order, and exactly
/// the permission of the range. Every other page keeps its entry.
pub proof fn law_mapping_fills_the_range(
    table: Map<usize, PageTableEntry>,
    lo: int,
    hi: int,
    perm: MapPermission,
    frames: Seq<usize>,
    vpn: usize,
)
    ensures
        ({
            let after = with_pages(table, lo, hi, perm, frames);
            &&& lo <= vpn < hi ==> {
                &&& after.contains_key(vpn)
                &&& after[vpn].valid
                &&& after[vpn].ppn == frames[vpn - lo]
                &&& after[vpn].readable == perm.r
                &&& after[vpn].writable == perm.w
                &&& after[vpn].executable == perm.x
                &&& after[vpn].user == perm.u
            }
            &&& vpn < lo || vpn >= hi ==> {
                &&& after.contains_key(vpn) == table.contains_key(vpn)
                &&& table.contains_key(vpn) ==> after[vpn] == table[vpn]
            }
        }),
{
}

/// Unmapping a range leaves no page of it with a valid entry, whatever the
/// entries were, and every other page keeps its entry.
pub proof fn law_unmapping_clears_the_range(
    table: Map<usize, PageTableEntry>,
    lo: int,
    hi: int,
    vpn: usize,
)
    ensures
        ({
            let after = without_pages(table, lo, hi);
            &&& lo <= vpn < hi && after.contains_key(vpn) ==> !after[vpn].valid
            &&& lo <= vpn < hi ==> !is_mapped(after, vpn)
            &&& !any_mapped(after, lo, hi)
            &&& vpn < lo || vpn >= hi ==> {
                &&& after.contains_key(vpn) == table.contains_key(vpn)
                &&& table.contains_key(vpn) ==> after[vpn] == table[vpn]
            }
        }),
{
}

/// An unmap call that finds every page mapped leaves none of them mapped: not one
/// of their addresses can be read or written afterwards.
pub proof fn law_unmapped_address_is_out_of_reach(
    table: Map<usize, PageTableEntry>,
    start: usize,
    len: usize,
    addr: usize,
    data: usize,
)
    requires
        start <= addr < start + rounded_len(len),
    ensures
        ({
            let after = without_pages(table, page_floor(start as int), unmap_end(start, len));
            &&& trace_step(after, 0, addr, data) == Step::<MemRequest>::Return(FAILED)
            &&& trace_step(after, 1, addr, data) == Step::<MemRequest>::Return(FAILED)
        }),
{
}

/// Writing over the front of a buffer puts each byte where it belongs, keeps what
/// is behind them, and never makes the buffer longer or shorter.
pub proof fn law_front_is_written_over(target: Seq<u8>, source: Seq<u8>, i: int)
    requires
        0 <= i < target.len(),
    ensures
        overwritten(target, source).len() == target.len(),
        i < source.len() ==> overwritten(target, source)[i] == source[i],
        i >= source.len() ==> overwritten(target, source)[i] == target[i],
{
}

/// The pieces of a buffer are its pages, in order.
pub proof fn law_pieces_are_the_pages(buffers: Seq<Vec<u8>>, i: int)
    requires
        0 <= i < buffers.len(),
    ensures
        pieces(buffers).len() == buffers.len(),
        pieces(buffers)[i] == buffers[i]@,
{
}

/// A time takes up two words: the first holds its seconds and the second its
/// microseconds.
pub proof fn law_time_lies_in_two_words(time: TimeVal)
    ensures
        time_bytes(time).len() == 16,
        spec_u64_from_le_bytes(time_bytes(time).subrange(0, 8)) == time.sec,
        spec_u64_from_le_bytes(time_bytes(time).subrange(8, 16)) == time.usec,
{
    lemma_auto_spec_u64_to_from_le_bytes();
    assert(time_bytes(time).subrange(0, 8) =~= spec_u64_to_le_bytes(time.sec as u64));
    assert(time_bytes(time).subrange(8, 16) =~= spec_u64_to_le_bytes(time.usec as u64));
}

/// Physical memory after a request has been performed.
pub open spec fn memory_after(
    memory: Map<(usize, usize), u8>,
    step: Step<MemRequest>,
) -> Map<(usize, usize), u8> {
    match step {
        Step::PerformThenReturn(MemRequest::Write { ppn, offset, byte }, _) => memory.insert(
            (ppn, offset),
            byte,
        ),
        _ => memory,
    }
}

/// The byte that a step reads from physical memory, if it reads one.
pub open spec fn byte_read(memory: Map<(usize, usize), u8>, step: Step<MemRequest>) -> Option<u8> {
    match step {
        Step::Perform(MemRequest::Read { ppn, offset }) => Some(memory[(ppn, offset)]),
        _ => None,
    }
}

/// A trace call reads any byte of any page that user code may read, whether or
/// not the page may be written, and finds it in the page's frame.
pub proof fn law_trace_reads_readable_memory(
    table: Map<usize, PageTableEntry>,
    memory: Map<(usize, usize), u8>,
    vpn: usize,
    offset: usize,
    addr: usize,
    data: usize,
)
    requires
        addr == vpn * 4096 + offset,
        offset < 4096,
    ensures
        table.contains_key(vpn) && table[vpn].valid && table[vpn].readable && table[vpn].user
            ==> byte_read(memory, trace_step(table, 0, addr, data)) == Some(
            memory[(table[vpn].ppn, offset)],
        ),
        may_read(table, addr) ==> byte_read(memory, trace_step(table, 0, addr, data)) == Some(
            memory[(frame_of(table, addr), (addr % PAGE_SIZE) as usize)],
        ),
        !(table.contains_key(vpn) && table[vpn].valid && table[vpn].readable && table[vpn].user)
            ==> trace_step(table, 0, addr, data) == Step::<MemRequest>::Return(FAILED),
{
}

/// A trace call writes any byte of any page that user code may write, whether or
/// not the page may be read, and puts it in the page's frame.
pub proof fn law_trace_writes_writable_memory(
    table: Map<usize, PageTableEntry>,
    memory: Map<(usize, usize), u8>,
    vpn: usize,
    offset: usize,
    addr: usize,
    data: usize,
    byte: u8,
    rest: usize,
)
    requires
        addr == vpn * 4096 + offset,
        offset < 4096,
        data == rest * 256 + byte,
    ensures
        table.contains_key(vpn) && table[vpn].valid && table[vpn].writable && table[vpn].user ==> {
            &&& trace_step(table, 1, addr, data) is PerformThenReturn
            &&& trace_step(table, 1, addr, data)->PerformThenReturn_1 == 0
            &&& memory_after(memory, trace_step(table, 1, addr, data)) == memory.insert(
                (table[vpn].ppn, offset),
                byte,
            )
        },
        !(table.contains_key(vpn) && table[vpn].valid && table[vpn].writable && table[vpn].user)
            ==> trace_step(table, 1, addr, data) == Step::<MemRequest>::Return(FAILED),
{
}

/// A trace call with any other request fails.
pub proof fn law_trace_knows_two_requests(
    table: Map<usize, PageTableEntry>,
    trace_request: usize,
    addr: usize,
    data: usize,
)
    requires
        trace_request > 1,
    ensures
        trace_step(table, trace_request, addr, data) == Step::<MemRequest>::Return(FAILED),
{
}

/// A trace call that may write an address and one that may read it agree: what
/// is read is the lowest byte of what was written.
pub proof fn law_trace_reads_what_was_written(
    table: Map<usize, PageTableEntry>,
    memory: Map<(usize, usize), u8>,
    addr: usize,
    data: usize,
    ignored: usize,
)
    requires
        may_read(table, addr),
        may_write(table, addr),
    ensures
        byte_read(
            memory_after(memory, trace_step(table, 1, addr, data)),
            trace_step(table, 0, addr, ignored),
        ) == Some((data as int % 256) as u8),
{
}

/// A trace call that writes one address changes what is read at another only if
/// both are the same byte of the same frame, and one that reads or fails changes
/// nothing.
pub proof fn law_trace_writes_one_byte(
    table: Map<usize, PageTableEntry>,
    memory: Map<(usize, usize), u8>,
    trace_request: usize,
    addr: usize,
    data: usize,
    place: (usize, usize),
)
    requires
        place != (frame_of(table, addr), (addr % PAGE_SIZE) as usize)
            || trace_request != 1 || !may_write(table, addr),
    ensures
        memory_after(memory, trace_step(table, trace_request, addr, data))[place] == memory[place],
        memory_after(memory, trace_step(table, trace_request, addr, data)).contains_key(place)
            == memory.contains_key(place),
{
}

} // verus!
