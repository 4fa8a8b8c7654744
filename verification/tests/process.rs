use syscall::mm::{MapPermission, PageTable, PageTableEntry, VirtAddr, PAGE_SIZE};
use syscall::process::{
    area_fits, mmap_insert, mmap_possible, sbrk_changed, sys_exit, sys_get_time, sys_mmap, sys_munmap, sys_sbrk,
    sys_trace, sys_yield, trace_read, BrkRequest, MapArea, MemRequest, SchedRequest, TimeVal,
};
use syscall::step::Step;

/// Maps an area to frames numbered from 100.
fn mmap(table: &mut PageTable, start: usize, len: usize, prot: usize) -> isize {
    match sys_mmap(table, start, len, prot) {
        Step::Return(code) => code,
        Step::Perform(area) => {
            let frames: Vec<usize> = (100..100 + area.page_count()).collect();
            mmap_insert(table, area, &frames)
        }
        other => panic!("unexpected step {:?}", other),
    }
}

#[test]
fn exit_and_yield_go_to_the_scheduler() {
    assert_eq!(sys_exit(3), Step::Perform(SchedRequest::ExitCurrent { exit_code: 3 }));
    assert_eq!(sys_yield(), Step::PerformThenReturn(SchedRequest::SuspendCurrent, 0));
}

#[test]
fn time_is_written_to_one_piece() {
    let mut buffers = vec![vec![0u8; 16]];
    assert_eq!(sys_get_time(3_000_017, &mut buffers), 0);
    let mut expected = 3u64.to_le_bytes().to_vec();
    expected.extend_from_slice(&17u64.to_le_bytes());
    assert_eq!(buffers, vec![expected]);
}

#[test]
fn time_is_split_across_pieces() {
    let us: usize = 123_456_789_012;
    for cut in 0..17 {
        let mut buffers = vec![vec![0xEEu8; cut], vec![], vec![0xEEu8; 16 - cut]];
        assert_eq!(sys_get_time(us, &mut buffers), 0);
        assert_eq!(buffers[0].len(), cut);
        let joined: Vec<u8> = buffers.concat();
        assert_eq!(u64::from_le_bytes(joined[0..8].try_into().unwrap()), 123_456);
        assert_eq!(u64::from_le_bytes(joined[8..16].try_into().unwrap()), 789_012);
    }
}

#[test]
fn time_leaves_what_is_behind_it() {
    let mut buffers = vec![vec![0xAAu8; 10], vec![0xAAu8; 10], vec![0xAAu8; 4]];
    assert_eq!(sys_get_time(0, &mut buffers), 0);
    assert_eq!(buffers[0], vec![0u8; 10]);
    assert_eq!(buffers[1], vec![0, 0, 0, 0, 0, 0, 0xAA, 0xAA, 0xAA, 0xAA]);
    assert_eq!(buffers[2], vec![0xAAu8; 4]);
}

#[test]
fn time_fills_a_short_buffer() {
    let mut buffers = vec![vec![0u8; 2], vec![0u8; 1]];
    assert_eq!(sys_get_time(0x0302_01 * 1_000_000, &mut buffers), 0);
    assert_eq!(buffers, vec![vec![1u8, 2], vec![3u8]]);
}

#[test]
fn time_in_memory() {
    let bytes = TimeVal { sec: 0x0102, usec: 0xFF }.to_bytes();
    assert_eq!(bytes, vec![2, 1, 0, 0, 0, 0, 0, 0, 0xFF, 0, 0, 0, 0, 0, 0, 0]);
}

#[test]
fn addresses_are_rounded_to_pages() {
    assert_eq!(VirtAddr(0).floor(), 0);
    assert_eq!(VirtAddr(0).ceil(), 0);
    assert_eq!(VirtAddr(1).ceil(), 1);
    assert_eq!(VirtAddr(PAGE_SIZE).ceil(), 1);
    assert_eq!(VirtAddr(PAGE_SIZE + 1).ceil(), 2);
    assert_eq!(VirtAddr(2 * PAGE_SIZE - 1).floor(), 1);
    assert_eq!(VirtAddr(2 * PAGE_SIZE - 1).page_offset(), PAGE_SIZE - 1);
    assert_eq!(VirtAddr(usize::MAX).ceil(), usize::MAX / PAGE_SIZE + 1);
}

#[test]
fn mmap_plans_whole_pages() {
    let table = PageTable::new();
    assert_eq!(
        sys_mmap(&table, 0x10000, 4097, 3),
        Step::Perform(MapArea {
            start_va: VirtAddr(0x10000),
            end_va: VirtAddr(0x12000),
            perm: MapPermission { r: true, w: true, x: false, u: true },
        })
    );
    assert_eq!(
        sys_mmap(&table, 0x10000, 4096, 4),
        Step::Perform(MapArea {
            start_va: VirtAddr(0x10000),
            end_va: VirtAddr(0x11000),
            perm: MapPermission { r: false, w: false, x: true, u: true },
        })
    );
}

#[test]
fn mmap_refuses_bad_arguments() {
    let table = PageTable::new();
    assert_eq!(sys_mmap(&table, 0x10001, 4096, 3), Step::Return(-1));
    assert_eq!(sys_mmap(&table, 0x10000, 4096, 0), Step::Return(-1));
    assert_eq!(sys_mmap(&table, 0x10000, 4096, 8), Step::Return(-1));
    assert_eq!(sys_mmap(&table, 0x10000, 4096, usize::MAX), Step::Return(-1));
}

#[test]
fn mmap_maps_each_page_to_its_frame() {
    let mut table = PageTable::new();
    assert_eq!(mmap(&mut table, 0x10000, 4097, 1), 0);
    let entry = |ppn| PageTableEntry {
        ppn,
        valid: true,
        readable: true,
        writable: false,
        executable: false,
        user: true,
    };
    assert_eq!(table.translate(0x10), Some(entry(100)));
    assert_eq!(table.translate(0x11), Some(entry(101)));
    assert_eq!(table.translate(0xF), None);
    assert_eq!(table.translate(0x12), None);
}

#[test]
fn mmap_refuses_a_mapped_page() {
    let mut table = PageTable::new();
    assert_eq!(mmap(&mut table, 0x10000, 4096, 3), 0);
    assert_eq!(mmap(&mut table, 0x10000, 4096, 3), -1);
    assert_eq!(mmap(&mut table, 0xF000, 8192, 3), -1);
    assert_eq!(table.translate(0xF), None);
    assert_eq!(mmap(&mut table, 0xF000, 4096, 3), 0);
}

#[test]
fn mmap_checks_again_before_it_maps() {
    let mut table = PageTable::new();
    let area = match sys_mmap(&table, 0x10000, 8192, 3) {
        Step::Perform(area) => area,
        other => panic!("unexpected step {:?}", other),
    };
    assert_eq!(mmap(&mut table, 0x11000, 4096, 1), 0);
    assert_eq!(mmap_insert(&mut table, area, &vec![1, 2]), -1);
    assert_eq!(table.translate(0x10), None);
}

#[test]
fn mmap_of_nothing_succeeds() {
    let mut table = PageTable::new();
    assert_eq!(mmap(&mut table, 0x10000, 0, 3), 0);
    assert_eq!(table.translate(0x10), None);
    assert_eq!(sys_munmap(&mut table, 0x10000, 0), 0);
}

#[test]
fn munmap_undoes_mmap() {
    let mut table = PageTable::new();
    assert_eq!(mmap(&mut table, 0x20000, 4096, 7), 0);
    assert_eq!(mmap(&mut table, 0x10000, 8192, 3), 0);
    assert_eq!(sys_munmap(&mut table, 0x10000, 8192), 0);
    assert!(!table.translate(0x10).unwrap().valid);
    assert!(!table.translate(0x11).unwrap().valid);
    assert!(table.translate(0x20).unwrap().valid);
    assert_eq!(sys_munmap(&mut table, 0x10000, 8192), -1);
    assert_eq!(mmap(&mut table, 0x10000, 8192, 1), 0);
}

#[test]
fn munmap_refuses_an_area_with_a_hole() {
    let mut table = PageTable::new();
    assert_eq!(mmap(&mut table, 0x10000, 4096, 3), 0);
    assert_eq!(sys_munmap(&mut table, 0x10000, 8192), -1);
    assert!(table.translate(0x10).unwrap().valid);
    assert_eq!(sys_munmap(&mut table, 0x30000, 1), -1);
}

#[test]
fn munmap_reaches_every_page_that_it_touches() {
    let mut table = PageTable::new();
    assert_eq!(mmap(&mut table, 0x10000, 8192, 3), 0);
    assert_eq!(sys_munmap(&mut table, 0x10010, 4096), 0);
    assert!(!table.translate(0x10).unwrap().valid);
    assert!(!table.translate(0x11).unwrap().valid);
}

#[test]
fn area_has_to_end_within_the_address_space() {
    assert!(area_fits(0, 0));
    assert!(area_fits(usize::MAX, 0));
    assert!(!area_fits(usize::MAX, 1));
    assert!(!area_fits(0, usize::MAX));
    assert!(area_fits(0, usize::MAX - PAGE_SIZE + 1));
    assert!(area_fits(PAGE_SIZE, 3 * PAGE_SIZE));
}

#[test]
fn refused_arguments_need_no_room() {
    assert!(mmap_possible(1, usize::MAX, 3));
    assert!(mmap_possible(0, usize::MAX, 0));
    assert!(mmap_possible(0, usize::MAX, 8));
    assert!(!mmap_possible(0, usize::MAX, 7));
    assert!(mmap_possible(0x10000, 4096, 7));
}

#[test]
fn trace_reads_and_writes_bytes() {
    let mut table = PageTable::new();
    assert_eq!(mmap(&mut table, 0x10000, 4096, 3), 0);
    assert_eq!(
        sys_trace(&table, 1, 0x10123, 0x1FF),
        Step::PerformThenReturn(MemRequest::Write { ppn: 100, offset: 0x123, byte: 0xFF }, 0)
    );
    assert_eq!(
        sys_trace(&table, 0, 0x10123, 0),
        Step::Perform(MemRequest::Read { ppn: 100, offset: 0x123 })
    );
    assert_eq!(trace_read(0xFF), 255);
}

#[test]
fn trace_respects_permissions() {
    let mut table = PageTable::new();
    assert_eq!(mmap(&mut table, 0x10000, 4096, 1), 0);
    assert_eq!(mmap(&mut table, 0x11000, 4096, 2), 0);
    assert_eq!(sys_trace(&table, 1, 0x10000, 1), Step::Return(-1));
    assert_eq!(sys_trace(&table, 0, 0x11000, 0), Step::Return(-1));
    assert_eq!(sys_trace(&table, 0, 0x12000, 0), Step::Return(-1));
    assert_eq!(sys_trace(&table, 1, 0x12000, 0), Step::Return(-1));
    let kernel_only = MapPermission { r: true, w: true, x: true, u: false };
    table.map(0x12, 5, kernel_only);
    assert_eq!(sys_trace(&table, 0, 0x12000, 0), Step::Return(-1));
    assert_eq!(sys_trace(&table, 1, 0x12000, 0), Step::Return(-1));
    assert_eq!(sys_munmap(&mut table, 0x10000, 4096), 0);
    assert_eq!(sys_trace(&table, 0, 0x10000, 0), Step::Return(-1));
}

#[test]
fn trace_knows_no_other_request() {
    let mut table = PageTable::new();
    assert_eq!(mmap(&mut table, 0x10000, 4096, 7), 0);
    assert_eq!(sys_trace(&table, 2, 0x10000, 0), Step::Return(-1));
    assert_eq!(sys_trace(&table, usize::MAX, 0x10000, 0), Step::Return(-1));
}

#[test]
fn sbrk_reports_the_old_break() {
    assert_eq!(sys_sbrk(-16), Step::Perform(BrkRequest { size: -16 }));
    assert_eq!(sbrk_changed(Some(0x8000)), 0x8000);
    assert_eq!(sbrk_changed(None), -1);
}
