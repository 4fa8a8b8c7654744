use syscall::fs::{
    directory_changed, file_opened, fstat_of_inode, linkat_found_new, linkat_found_old, sys_close,
    sys_fstat, sys_linkat, sys_open, sys_read, sys_unlinkat, sys_write, transferred,
    unlinkat_found, DirRequest, File, InodeInfo, InodeType, OpenFlags, OpenRequest, Stat, StatMode,
    StatWrite, Transfer,
};
use syscall::step::Step;

fn file(handle: usize, readable: bool, writable: bool) -> File {
    File { handle, readable, writable }
}

/// Standard input, output and error output.
fn console() -> Vec<Option<File>> {
    vec![Some(file(0, true, false)), Some(file(1, false, true)), Some(file(1, false, true))]
}

#[test]
fn write_needs_an_open_writable_file() {
    let table = console();
    assert_eq!(
        sys_write(&table, 77, 1, 0x8000, 5),
        Step::Perform(Transfer { file: file(1, false, true), token: 77, buf: 0x8000, len: 5 })
    );
    assert_eq!(sys_write(&table, 77, 0, 0x8000, 5), Step::Return(-1));
    assert_eq!(sys_write(&table, 77, 3, 0x8000, 5), Step::Return(-1));
    let with_hole = vec![None, Some(file(1, false, true))];
    assert_eq!(sys_write(&with_hole, 77, 0, 0x8000, 5), Step::Return(-1));
}

#[test]
fn read_needs_an_open_readable_file() {
    let table = console();
    assert_eq!(
        sys_read(&table, 9, 0, 0x4000, 64),
        Step::Perform(Transfer { file: file(0, true, false), token: 9, buf: 0x4000, len: 64 })
    );
    assert_eq!(sys_read(&table, 9, 1, 0x4000, 64), Step::Return(-1));
    assert_eq!(sys_read(&table, 9, usize::MAX, 0x4000, 64), Step::Return(-1));
    assert_eq!(sys_read(&vec![None], 9, 0, 0x4000, 64), Step::Return(-1));
}

#[test]
fn transfer_reports_the_count() {
    assert_eq!(transferred(0), 0);
    assert_eq!(transferred(12), 12);
}

#[test]
fn open_asks_for_the_file() {
    let path = "notes".to_string();
    let flags = OpenFlags { bits: 0x200 };
    assert_eq!(sys_open(&path, Some(flags)), Step::Perform(OpenRequest { path: &path, flags }));
}

#[test]
fn open_takes_the_lowest_free_descriptor() {
    let mut table = console();
    assert_eq!(file_opened(&mut table, Some(file(5, true, true))), 3);
    assert_eq!(table.len(), 4);
    assert_eq!(sys_close(&mut table, 1), 0);
    assert_eq!(file_opened(&mut table, Some(file(6, true, false))), 1);
    assert_eq!(table[1], Some(file(6, true, false)));
    assert_eq!(table[3], Some(file(5, true, true)));
    assert_eq!(table.len(), 4);
}

#[test]
fn open_fails_without_a_file() {
    let mut table = console();
    assert_eq!(file_opened(&mut table, None), -1);
    assert_eq!(table, console());
}

#[test]
fn close_frees_an_open_descriptor_once() {
    let mut table = console();
    assert_eq!(sys_close(&mut table, 2), 0);
    assert_eq!(table[2], None);
    assert_eq!(sys_close(&mut table, 2), -1);
    assert_eq!(sys_close(&mut table, 3), -1);
    assert_eq!(sys_write(&table, 1, 2, 0, 0), Step::Return(-1));
    assert_eq!(sys_read(&table, 1, 2, 0, 0), Step::Return(-1));
}

#[test]
fn close_undoes_open() {
    let mut table = vec![Some(file(0, true, false)), None];
    assert_eq!(file_opened(&mut table, Some(file(9, true, true))), 1);
    assert_eq!(sys_close(&mut table, 1), 0);
    assert_eq!(table, vec![Some(file(0, true, false)), None]);

    let mut full = console();
    assert_eq!(file_opened(&mut full, Some(file(9, true, true))), 3);
    assert_eq!(sys_close(&mut full, 3), 0);
    let mut expected = console();
    expected.push(None);
    assert_eq!(full, expected);
}

#[test]
fn closed_descriptor_is_reused() {
    let mut table = console();
    assert_eq!(sys_close(&mut table, 0), 0);
    assert_eq!(sys_close(&mut table, 2), 0);
    assert_eq!(file_opened(&mut table, Some(file(7, true, true))), 0);
    assert_eq!(file_opened(&mut table, Some(file(8, true, true))), 2);
    assert_eq!(file_opened(&mut table, Some(file(9, true, true))), 3);
}

#[test]
fn fstat_asks_for_the_inode_of_an_open_file() {
    let table = console();
    assert_eq!(sys_fstat(&table, 0), Step::Perform(file(0, true, false)));
    assert_eq!(sys_fstat(&table, 3), Step::Return(-1));
    assert_eq!(sys_fstat(&vec![None], 0), Step::Return(-1));
}

#[test]
fn fstat_reports_files_and_directories() {
    let info = InodeInfo { inode_id: 42, nlink: 2, inode_type: InodeType::File };
    let stat = Stat { dev: 0, ino: 42, mode: StatMode::FILE, nlink: 2, pad: [0; 7] };
    assert_eq!(
        fstat_of_inode(Some(info), 3, 0x9000),
        Step::PerformThenReturn(StatWrite { token: 3, st: 0x9000, stat }, 0)
    );
    let info = InodeInfo { inode_id: 0, nlink: 1, inode_type: InodeType::Directory };
    let stat = Stat { dev: 0, ino: 0, mode: StatMode::DIR, nlink: 1, pad: [0; 7] };
    assert_eq!(
        fstat_of_inode(Some(info), 3, 0x9000),
        Step::PerformThenReturn(StatWrite { token: 3, st: 0x9000, stat }, 0)
    );
}

#[test]
fn fstat_fails_for_a_file_without_inode() {
    assert_eq!(fstat_of_inode(None, 3, 0x9000), Step::Return(-1));
}

/// Runs a hard link call against a directory.
fn link(directory: &mut Vec<(String, usize)>, old: &str, new: &str, room: bool) -> isize {
    let old = old.to_string();
    let new = new.to_string();
    let find = |directory: &Vec<(String, usize)>, name: &String| {
        directory.iter().find(|entry| entry.0 == *name).map(|entry| entry.1)
    };
    let target = match sys_linkat(&old, &new) {
        Step::Perform(DirRequest::Find(name)) => find(directory, name),
        Step::Return(code) => return code,
        other => panic!("unexpected step {:?}", other),
    };
    let existing = match linkat_found_old(&new, target) {
        Step::Perform(DirRequest::Find(name)) => find(directory, name),
        Step::Return(code) => return code,
        other => panic!("unexpected step {:?}", other),
    };
    match linkat_found_new(&new, target.unwrap(), existing) {
        Step::Perform(DirRequest::Link(name, inode)) => {
            if room {
                directory.push((name.clone(), inode));
            }
            directory_changed(room)
        }
        Step::Return(code) => code,
        other => panic!("unexpected step {:?}", other),
    }
}

/// Runs an unlink call against a directory.
fn unlink(directory: &mut Vec<(String, usize)>, name: &str, allowed: bool) -> isize {
    let name = name.to_string();
    let found = match sys_unlinkat(&name) {
        Step::Perform(DirRequest::Find(path)) => {
            directory.iter().find(|entry| entry.0 == *path).map(|entry| entry.1)
        }
        other => panic!("unexpected step {:?}", other),
    };
    match unlinkat_found(&name, found) {
        Step::Perform(DirRequest::Unlink(path)) => {
            if allowed {
                directory.retain(|entry| entry.0 != *path);
            }
            directory_changed(allowed)
        }
        Step::Return(code) => code,
        other => panic!("unexpected step {:?}", other),
    }
}

#[test]
fn linkat_gives_an_inode_a_second_name() {
    let mut directory = vec![("a".to_string(), 7)];
    assert_eq!(link(&mut directory, "a", "b", true), 0);
    assert_eq!(directory, vec![("a".to_string(), 7), ("b".to_string(), 7)]);
}

#[test]
fn linkat_refuses_equal_missing_and_taken_names() {
    let mut directory = vec![("a".to_string(), 7), ("b".to_string(), 8)];
    let before = directory.clone();
    assert_eq!(link(&mut directory, "a", "a", true), -1);
    assert_eq!(link(&mut directory, "c", "d", true), -1);
    assert_eq!(link(&mut directory, "a", "b", true), -1);
    assert_eq!(link(&mut directory, "a", "d", false), -1);
    assert_eq!(directory, before);
}

#[test]
fn unlinkat_takes_an_existing_name_away() {
    let mut directory = vec![("a".to_string(), 7), ("b".to_string(), 7)];
    assert_eq!(unlink(&mut directory, "a", true), 0);
    assert_eq!(directory, vec![("b".to_string(), 7)]);
    assert_eq!(unlink(&mut directory, "a", true), -1);
    assert_eq!(unlink(&mut directory, "b", false), -1);
    assert_eq!(directory, vec![("b".to_string(), 7)]);
}
