//! What holds of the file system calls as a whole.
use crate::fs::DirRequest;
use crate::fs::File;
use crate::fs::InodeInfo;
use crate::fs::Stat;
use crate::fs::change_result;
use crate::fs::is_stat_of;
use crate::fs::link_start;
use crate::fs::link_unless_taken;
use crate::fs::link_with_target;
use crate::fs::open_for_reading;
use crate::fs::open_for_writing;
use crate::fs::unlink_if_found;
use crate::fs::unlink_start;
use crate::slots::first_free;
use crate::slots::lemma_first_free;
use crate::slots::lemma_place_then_free;
use crate::slots::lemma_placed;
use crate::slots::occupied;
use crate::slots::placed;
use crate::step::FAILED;
use crate::step::Step;
use vstd::prelude::*;

verus! {

/// Opening a file uses a descriptor that was not in use, makes it good for
/// exactly what the file is good for, and leaves every other descriptor alone.
pub proof fn law_open_gives_a_new_descriptor(fd_table: Seq<Option<File>>, file: File)
    ensures
        ({
            let fd = first_free(fd_table);
            let after = placed(fd_table, file);
            &&& !occupied(fd_table, fd)
            &&& occupied(after, fd)
            &&& open_for_reading(after, fd) == file.readable
            &&& open_for_writing(after, fd) == file.writable
            &&& forall|other: int|
                other != fd ==> #[trigger] occupied(after, other) == occupied(fd_table, other)
            &&& forall|other: int|
                other != fd && #[trigger] occupied(fd_table, other) ==> after[other]
                    == fd_table[other]
        }),
{
    lemma_first_free(fd_table);
    lemma_placed(fd_table, file);
}

/// Descriptors are given out from the lowest: every one below a new one is in use.
pub proof fn law_open_gives_the_lowest_descriptor(fd_table: Seq<Option<File>>, fd: int)
    requires
        0 <= fd < first_free(fd_table),
    ensures
        occupied(fd_table, fd),
{
    lemma_first_free(fd_table);
}

/// Closing what was just opened brings the table back, up to one free
/// descriptor at its end.
pub proof fn law_close_undoes_open(fd_table: Seq<Option<File>>, file: File)
    ensures
        placed(fd_table, file).update(first_free(fd_table), None) == (if first_free(fd_table)
            < fd_table.len() {
            fd_table
        } else {
            fd_table.push(None)
        }),
{
    lemma_first_free(fd_table);
    lemma_placed(fd_table, file);
    lemma_place_then_free(fd_table, file);
}

/// A descriptor that has been closed is good for nothing: it can be neither
/// read, written nor closed again. Every other descriptor stays as it is.
pub proof fn law_closed_descriptor_is_unusable(fd_table: Seq<Option<File>>, fd: int)
    requires
        occupied(fd_table, fd),
    ensures
        ({
            let after = fd_table.update(fd, None);
            &&& !occupied(after, fd)
            &&& !open_for_reading(after, fd)
            &&& !open_for_writing(after, fd)
            &&& forall|other: int|
                other != fd ==> #[trigger] occupied(after, other) == occupied(fd_table, other)
            &&& forall|other: int|
                other != fd && #[trigger] occupied(fd_table, other) ==> after[other]
                    == fd_table[other]
        }),
{
}

/// A descriptor that is closed is the one that the next file gets, unless a
/// lower one is free.
pub proof fn law_closed_descriptor_is_reused(fd_table: Seq<Option<File>>, fd: int)
    requires
        occupied(fd_table, fd),
    ensures
        first_free(fd_table.update(fd, None)) == (if first_free(fd_table) < fd {
            first_free(fd_table)
        } else {
            fd
        }),
{
    let after = fd_table.update(fd, None);
    lemma_first_free(fd_table);
    lemma_first_free(after);
    let lowest = if first_free(fd_table) < fd {
        first_free(fd_table)
    } else {
        fd
    };
    if first_free(after) < lowest {
        assert(occupied(fd_table, first_free(after)));
    }
    if lowest < first_free(after) {
        assert(occupied(after, lowest));
    }
}

/// A descriptor is good for reading exactly if it is open and its file may be
/// read, and good for writing exactly if it is open and its file may be written,
/// each whatever the other is.
pub proof fn law_descriptor_is_good_for_what_its_file_is(fd_table: Seq<Option<File>>, fd: int)
    ensures
        0 <= fd < fd_table.len() && fd_table[fd] is Some ==> {
            &&& open_for_reading(fd_table, fd) == fd_table[fd]->0.readable
            &&& open_for_writing(fd_table, fd) == fd_table[fd]->0.writable
        },
        fd < 0 || fd >= fd_table.len() || fd_table[fd] is None ==> {
            &&& !open_for_reading(fd_table, fd)
            &&& !open_for_writing(fd_table, fd)
        },
{
}

/// A status tells its inode: the number, whether it is a directory and how many
/// names it has, and everything else in it is zero.
pub proof fn law_status_tells_the_inode(stat: Stat, inode: InodeInfo)
    requires
        is_stat_of(stat, inode),
    ensures
        stat.ino == inode.inode_id,
        stat.mode is DIR <==> inode.inode_type is Directory,
        stat.nlink == inode.nlink,
        stat.dev == 0,
        forall|i: int| 0 <= i < 7 ==> #[trigger] stat.pad@[i] == 0,
{
}

/// Inodes that differ never share a status, and one name more is one link more
/// in the status.
pub proof fn law_statuses_differ_as_their_inodes(
    stat: Stat,
    inode: InodeInfo,
    other_stat: Stat,
    other: InodeInfo,
)
    requires
        is_stat_of(stat, inode),
        is_stat_of(other_stat, other),
    ensures
        stat == other_stat ==> inode == other,
        other_stat.nlink - stat.nlink == other.nlink - inode.nlink,
        other_stat.ino - stat.ino == other.inode_id - inode.inode_id,
        stat.mode == other_stat.mode <==> inode.inode_type == other.inode_type,
{
}

/// What a look-up in a directory finds.
pub open spec fn looked_up(directory: Map<Seq<char>, usize>, name: Seq<char>) -> Option<usize> {
    if directory.contains_key(name) {
        Some(directory[name])
    } else {
        None
    }
}

/// What a system call on a directory comes to: its result, and the change that
/// it asked for, if any.
pub struct DirOutcome<'a> {
    /// Result of the call.
    pub result: isize,
    /// The change to the directory.
    pub change: Option<DirRequest<'a>>,
}

/// How a step of a directory call ends when no look-up is left: a change is
/// performed, and `changed` says whether the directory took it.
pub open spec fn ended<'a>(step: Step<DirRequest<'a>>, changed: bool) -> DirOutcome<'a> {
    match step {
        Step::Perform(request) => DirOutcome { result: change_result(changed), change: Some(request) },
        Step::Return(code) => DirOutcome { result: code, change: None },
        Step::PerformThenReturn(request, code) => DirOutcome { result: code, change: Some(request) },
    }
}

/// A whole hard link call, with every look-up answered from `directory`.
pub open spec fn linkat_run<'a>(
    directory: Map<Seq<char>, usize>,
    old_path: &'a String,
    new_path: &'a String,
    changed: bool,
) -> DirOutcome<'a> {
    match link_start(old_path, new_path) {
        Step::Perform(DirRequest::Find(first)) => {
            let target = looked_up(directory, first@);
            match link_with_target(new_path, target) {
                Step::Perform(DirRequest::Find(second)) => ended(
                    link_unless_taken(new_path, target->0, looked_up(directory, second@)),
                    changed,
                ),
                other => ended(other, changed),
            }
        },
        other => ended(other, changed),
    }
}

/// A whole unlink call, with every look-up answered from `directory`.
pub open spec fn unlinkat_run<'a>(
    directory: Map<Seq<char>, usize>,
    path: &'a String,
    changed: bool,
) -> DirOutcome<'a> {
    match unlink_start(path) {
        Step::Perform(DirRequest::Find(name)) => ended(
            unlink_if_found(path, looked_up(directory, name@)),
            changed,
        ),
        other => ended(other, changed),
    }
}

/// A hard link call asks for the new name to be linked to the inode of the old
/// one exactly if the names differ, the old one exists and the new one does not.
/// It succeeds exactly if it asked and the directory took the link.
pub proof fn law_linkat(
    directory: Map<Seq<char>, usize>,
    old_path: &String,
    new_path: &String,
    changed: bool,
)
    ensures
        ({
            let outcome = linkat_run(directory, old_path, new_path, changed);
            let asked = old_path@ != new_path@ && directory.contains_key(old_path@)
                && !directory.contains_key(new_path@);
            &&& outcome.change == (if asked {
                Some(DirRequest::Link(new_path, directory[old_path@]))
            } else {
                None
            })
            &&& outcome.result == (if asked && changed {
                0
            } else {
                FAILED as int
            })
        }),
{
}

/// An unlink call asks for the name to be taken away exactly if it exists, and
/// succeeds exactly if it asked and the directory did so.
pub proof fn law_unlinkat(directory: Map<Seq<char>, usize>, path: &String, changed: bool)
    ensures
        ({
            let outcome = unlinkat_run(directory, path, changed);
            let asked = directory.contains_key(path@);
            &&& outcome.change == (if asked {
                Some(DirRequest::Unlink(path))
            } else {
                None
            })
            &&& outcome.result == (if asked && changed {
                0
            } else {
                FAILED as int
            })
        }),
{
}

} // verus!
