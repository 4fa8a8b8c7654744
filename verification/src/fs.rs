//! File and filesystem-related system calls.
//!
//! The descriptor table is a list of slots. Reading, writing and looking at a
//! directory are left to whoever runs the calls: a call says what to perform, and
//! its continuation takes the outcome.
use crate::slots::first_free;
use crate::slots::law_new_entry_takes_the_lowest_slot;
use crate::slots::occupied;
use crate::slots::place;
use crate::slots::placed;
use crate::step::FAILED;
use crate::step::Step;
use vstd::prelude::*;

verus! {

/// An open file, as a descriptor table keeps it.
#[derive(Clone, Copy, Debug, PartialEq, Eq, Structural)]
pub struct File {
    /// By which the kernel finds the file.
    pub handle: usize,
    /// Whether it may be read.
    pub readable: bool,
    /// Whether it may be written.
    pub writable: bool,
}

/// A transfer between a file and a user's buffer.
#[derive(Clone, Copy, Debug, PartialEq, Eq, Structural)]
pub struct Transfer {
    /// The file.
    pub file: File,
    /// Token of the address space that the buffer is in.
    pub token: usize,
    /// Address of the buffer.
    pub buf: usize,
    /// Length of the buffer.
    pub len: usize,
}

/// How a file is opened: a set of flags, every one of them known.
#[derive(Clone, Copy, Debug, PartialEq, Eq, Structural)]
pub struct OpenFlags {
    /// The flags as bits.
    pub bits: u32,
}

/// A file to be opened.
#[derive(Clone, Copy, Debug, PartialEq, Eq)]
pub struct OpenRequest<'a> {
    /// Its name.
    pub path: &'a String,
    /// How to open it.
    pub flags: OpenFlags,
}

/// What an inode is.
#[derive(Clone, Copy, Debug, PartialEq, Eq, Structural)]
pub enum InodeType {
    File,
    Directory,
}

/// What an inode tells of itself.
#[derive(Clone, Copy, Debug, PartialEq, Eq, Structural)]
pub struct InodeInfo {
    /// Its number.
    pub inode_id: usize,
    /// Number of names that it has.
    pub nlink: u32,
    /// What it is.
    pub inode_type: InodeType,
}

/// Type of a file, as reported to users.
#[derive(Clone, Copy, Debug, PartialEq, Eq, Structural)]
pub enum StatMode {
    /// Directory.
    DIR,
    /// Ordinary file.
    FILE,
}

/// Status of a file, as reported to users.
#[derive(Clone, Copy, Debug, PartialEq, Eq)]
pub struct Stat {
    /// Device number.
    pub dev: u64,
    /// Inode number.
    pub ino: u64,
    /// Type of the file.
    pub mode: StatMode,
    /// Number of hard links.
    pub nlink: u32,
    /// Unused.
    pub pad: [u64; 7],
}

/// A status to be written to a user's memory.
#[derive(Clone, Copy, Debug, PartialEq, Eq)]
pub struct StatWrite {
    /// Token of the address space.
    pub token: usize,
    /// Address to write to.
    pub st: usize,
    /// What to write.
    pub stat: Stat,
}

/// What a call asks of the root directory.
#[derive(Clone, Copy, Debug, PartialEq, Eq)]
pub enum DirRequest<'a> {
    /// Look a name up.
    Find(&'a String),
    /// Give an inode another name.
    Link(&'a String, usize),
    /// Take a name away.
    Unlink(&'a String),
}

/// Whether `fd` is open in the table for writing.
pub open spec fn open_for_writing(fd_table: Seq<Option<File>>, fd: int) -> bool {
    occupied(fd_table, fd) && fd_table[fd]->0.writable
}

/// Whether `fd` is open in the table for reading.
pub open spec fn open_for_reading(fd_table: Seq<Option<File>>, fd: int) -> bool {
    occupied(fd_table, fd) && fd_table[fd]->0.readable
}

/// Write syscall: fails unless `fd` is open for writing.
pub fn sys_write(fd_table: &Vec<Option<File>>, token: usize, fd: usize, buf: usize, len: usize) -> (step:
    Step<Transfer>)
    ensures
        step == (if open_for_writing(fd_table@, fd as int) {
            Step::Perform(Transfer { file: fd_table@[fd as int]->0, token, buf, len })
        } else {
            Step::Return(FAILED)
        }),
        step is Perform <==> fd < fd_table@.len() && fd_table@[fd as int] is Some
            && fd_table@[fd as int]->0.writable,
{
    if fd >= fd_table.len() {
        return Step::Return(FAILED);
    }
    if let Some(file) = fd_table[fd] {
        if !file.writable {
            return Step::Return(FAILED);
        }
        Step::Perform(Transfer { file, token, buf, len })
    } else {
        Step::Return(FAILED)
    }
}

/// Read syscall: fails unless `fd` is open for reading.
pub fn sys_read(fd_table: &Vec<Option<File>>, token: usize, fd: usize, buf: usize, len: usize) -> (step:
    Step<Transfer>)
    ensures
        step == (if open_for_reading(fd_table@, fd as int) {
            Step::Perform(Transfer { file: fd_table@[fd as int]->0, token, buf, len })
        } else {
            Step::Return(FAILED)
        }),
        step is Perform <==> fd < fd_table@.len() && fd_table@[fd as int] is Some
            && fd_table@[fd as int]->0.readable,
{
    if fd >= fd_table.len() {
        return Step::Return(FAILED);
    }
    if let Some(file) = fd_table[fd] {
        if !file.readable {
            return Step::Return(FAILED);
        }
        Step::Perform(Transfer { file, token, buf, len })
    } else {
        Step::Return(FAILED)
    }
}

/// Result of a read or write syscall, once `count` bytes have been transferred.
pub fn transferred(count: usize) -> (result: isize)
    ensures
        result == count as isize,
{
    count as isize
}

/// Open syscall, with the user's flags decoded: `None` stands for flags of which
/// some are not known, and nothing can be opened with those.
pub fn sys_open<'a>(path: &'a String, flags: Option<OpenFlags>) -> (step: Step<OpenRequest<'a>>)
    requires
        flags is Some,
    ensures
        step == Step::Perform(OpenRequest { path, flags: flags->0 }),
{
    Step::Perform(OpenRequest { path, flags: flags.unwrap() })
}

/// Open syscall, once the file has been looked for: a file that was found takes
/// the first free descriptor.
pub fn file_opened(fd_table: &mut Vec<Option<File>>, opened: Option<File>) -> (fd: isize)
    ensures
        opened is None ==> fd == FAILED && final(fd_table)@ == old(fd_table)@,
        opened is Some ==> fd == first_free(old(fd_table)@) as isize && final(fd_table)@ == placed(
            old(fd_table)@,
            opened->0,
        ),
        opened is Some && old(fd_table)@.len() <= isize::MAX ==> {
            &&& 0 <= fd <= old(fd_table)@.len()
            &&& fd < old(fd_table)@.len() ==> old(fd_table)@[fd as int] is None
            &&& forall|i: int| 0 <= i < fd ==> #[trigger] old(fd_table)@[i] is Some
            &&& fd < final(fd_table)@.len()
            &&& final(fd_table)@[fd as int] == opened
            &&& forall|i: int|
                0 <= i < old(fd_table)@.len() && i != fd ==> #[trigger] final(fd_table)@[i] == old(
                    fd_table,
                )@[i]
        },
{
    proof {
        law_new_entry_takes_the_lowest_slot(fd_table@, opened->0);
    }
    if let Some(file) = opened {
        let fd: usize = place(fd_table, file);
        fd as isize
    } else {
        FAILED
    }
}

/// Close syscall: fails unless `fd` is open, and frees it.
pub fn sys_close(fd_table: &mut Vec<Option<File>>, fd: usize) -> (result: isize)
    ensures
        !occupied(old(fd_table)@, fd as int) ==> result == FAILED && final(fd_table)@ == old(fd_table)@,
        occupied(old(fd_table)@, fd as int) ==> result == 0 && final(fd_table)@ == old(
            fd_table,
        )@.update(fd as int, None),
        result == 0 <==> fd < old(fd_table)@.len() && old(fd_table)@[fd as int] is Some,
{
    if fd >= fd_table.len() {
        return FAILED;
    }
    if fd_table[fd].is_none() {
        return FAILED;
    }
    fd_table.set(fd, None);
    0
}

/// Get file status: fails unless `fd` is open, and asks for the file's inode.
pub fn sys_fstat(fd_table: &Vec<Option<File>>, fd: usize) -> (step: Step<File>)
    ensures
        step == (if occupied(fd_table@, fd as int) {
            Step::Perform(fd_table@[fd as int]->0)
        } else {
            Step::Return(FAILED)
        }),
        step is Perform <==> fd < fd_table@.len() && fd_table@[fd as int] is Some,
{
    if fd >= fd_table.len() {
        return Step::Return(FAILED);
    }
    if let Some(file) = fd_table[fd] {
        Step::Perform(file)
    } else {
        Step::Return(FAILED)
    }
}

/// Whether `stat` is the status of `inode`.
pub open spec fn is_stat_of(stat: Stat, inode: InodeInfo) -> bool {
    &&& stat.dev == 0
    &&& stat.ino == inode.inode_id
    &&& stat.mode == (if inode.inode_type == InodeType::Directory {
        StatMode::DIR
    } else {
        StatMode::FILE
    })
    &&& stat.nlink == inode.nlink
    &&& forall|i: int| 0 <= i < 7 ==> #[trigger] stat.pad@[i] == 0
}

/// Get file status, once the inode is known: a file without one, such as the
/// console, has no status.
pub fn fstat_of_inode(inode: Option<InodeInfo>, token: usize, st: usize) -> (step: Step<StatWrite>)
    ensures
        inode is None ==> step == Step::<StatWrite>::Return(FAILED),
        inode is Some ==> {
            &&& step is PerformThenReturn
            &&& step->PerformThenReturn_1 == 0
            &&& step->PerformThenReturn_0.token == token
            &&& step->PerformThenReturn_0.st == st
            &&& is_stat_of(step->PerformThenReturn_0.stat, inode->0)
            &&& step->PerformThenReturn_0.stat.dev == 0
            &&& step->PerformThenReturn_0.stat.ino == inode->0.inode_id
            &&& (step->PerformThenReturn_0.stat.mode is DIR <==> inode->0.inode_type is Directory)
            &&& step->PerformThenReturn_0.stat.nlink == inode->0.nlink
            &&& forall|i: int|
                0 <= i < 7 ==> #[trigger] step->PerformThenReturn_0.stat.pad@[i] == 0
        },
{
    if let Some(info) = inode {
        let mode = if info.inode_type == InodeType::Directory {
            StatMode::DIR
        } else {
            StatMode::FILE
        };
        let stat = Stat {
            dev: 0,
            ino: info.inode_id as u64,
            mode,
            nlink: info.nlink,
            pad: [0u64; 7],
        };
        Step::PerformThenReturn(StatWrite { token, st, stat }, 0)
    } else {
        Step::Return(FAILED)
    }
}

/// First step of a hard link: a name cannot be linked to itself.
pub open spec fn link_start<'a>(old_path: &'a String, new_path: &'a String) -> Step<DirRequest<'a>> {
    if old_path@ == new_path@ {
        Step::Return(FAILED)
    } else {
        Step::Perform(DirRequest::Find(old_path))
    }
}

/// Second step of a hard link: the old name has to exist.
pub open spec fn link_with_target<'a>(
    new_path: &'a String,
    target: Option<usize>,
) -> Step<DirRequest<'a>> {
    if target is None {
        Step::Return(FAILED)
    } else {
        Step::Perform(DirRequest::Find(new_path))
    }
}

/// Third step of a hard link: the new name must not exist.
pub open spec fn link_unless_taken<'a>(
    new_path: &'a String,
    target: usize,
    existing: Option<usize>,
) -> Step<DirRequest<'a>> {
    if existing is Some {
        Step::Return(FAILED)
    } else {
        Step::Perform(DirRequest::Link(new_path, target))
    }
}

/// Result of a change to the directory.
pub open spec fn change_result(changed: bool) -> isize {
    if changed {
        0
    } else {
        FAILED
    }
}

/// Create a hard link.
pub fn sys_linkat<'a>(old_path: &'a String, new_path: &'a String) -> (step: Step<DirRequest<'a>>)
    ensures
        step == link_start(old_path, new_path),
        step == (if old_path@ != new_path@ {
            Step::Perform(DirRequest::Find(old_path))
        } else {
            Step::Return(FAILED)
        }),
{
    if *old_path == *new_path {
        return Step::Return(FAILED);
    }
    Step::Perform(DirRequest::Find(old_path))
}

/// Create a hard link, once the old name has been looked up.
pub fn linkat_found_old<'a>(new_path: &'a String, target: Option<usize>) -> (step: Step<
    DirRequest<'a>,
>)
    ensures
        step == link_with_target(new_path, target),
        step == (if target is Some {
            Step::Perform(DirRequest::Find(new_path))
        } else {
            Step::Return(FAILED)
        }),
{
    if target.is_some() {
        Step::Perform(DirRequest::Find(new_path))
    } else {
        Step::Return(FAILED)
    }
}

/// Create a hard link to `target`, once the new name has been looked up.
pub fn linkat_found_new<'a>(new_path: &'a String, target: usize, existing: Option<usize>) -> (step:
    Step<DirRequest<'a>>)
    ensures
        step == link_unless_taken(new_path, target, existing),
        step == (if existing is None {
            Step::Perform(DirRequest::Link(new_path, target))
        } else {
            Step::Return(FAILED)
        }),
{
    if existing.is_some() {
        return Step::Return(FAILED);
    }
    Step::Perform(DirRequest::Link(new_path, target))
}

/// Remove a hard link.
pub fn sys_unlinkat<'a>(path: &'a String) -> (step: Step<DirRequest<'a>>)
    ensures
        step == unlink_start(path),
        step == Step::Perform(DirRequest::Find(path)),
{
    Step::Perform(DirRequest::Find(path))
}

/// First step of removing a hard link: look the name up.
pub open spec fn unlink_start<'a>(path: &'a String) -> Step<DirRequest<'a>> {
    Step::Perform(DirRequest::Find(path))
}

/// Second step of removing a hard link: the name has to exist.
pub open spec fn unlink_if_found<'a>(path: &'a String, found: Option<usize>) -> Step<DirRequest<'a>> {
    if found is None {
        Step::Return(FAILED)
    } else {
        Step::Perform(DirRequest::Unlink(path))
    }
}

/// Remove a hard link, once its name has been looked up.
pub fn unlinkat_found<'a>(path: &'a String, found: Option<usize>) -> (step: Step<DirRequest<'a>>)
    ensures
        step == unlink_if_found(path, found),
        step == (if found is Some {
            Step::Perform(DirRequest::Unlink(path))
        } else {
            Step::Return(FAILED)
        }),
{
    if found.is_none() {
        return Step::Return(FAILED);
    }
    Step::Perform(DirRequest::Unlink(path))
}

/// Result of linking or unlinking, once the directory has been asked to change.
pub fn directory_changed(changed: bool) -> (result: isize)
    ensures
        result == change_result(changed),
        result == 0 <==> changed,
{
    if changed {
        0
    } else {
        FAILED
    }
}

} // verus!
