//! Synchronisation system calls, with optional deadlock detection.
use crate::banker::Claims;
use crate::banker::all_can_finish;
use crate::matrix::Matrix;
use crate::matrix::column_sum;
use crate::matrix::decremented;
use crate::matrix::expanded;
use crate::matrix::has_cell;
use crate::matrix::incremented;
use crate::matrix::lemma_expanded_sum;
use crate::matrix::minus;
use crate::matrix::padded;
use crate::matrix::row_of;
use crate::matrix::with_cell;
use crate::slots::find_free;
use crate::slots::first_free;
use crate::slots::occupied;
use crate::slots::place;
use crate::slots::placed;
use crate::step::FAILED;
use crate::step::Step;
use vstd::prelude::*;

verus! {

/// Deadlock detection return value.
pub const DEADLOCK_RETURN: isize = -0xDEAD;

/// How a mutex makes a thread wait.
#[derive(Clone, Copy, Debug, PartialEq, Eq, Structural)]
pub enum MutexKind {
    /// The thread tries again until the mutex is free.
    Spin,
    /// The thread sleeps until it is handed the mutex.
    Blocking,
}

/// A counting semaphore.
#[derive(Clone, Copy, Debug, PartialEq, Eq, Structural)]
pub struct Semaphore {
    /// Units that it was created with.
    pub res_count: usize,
}

/// A condition variable.
#[derive(Clone, Copy, Debug, PartialEq, Eq, Structural)]
pub struct Condvar {}

/// Resource type for deadlock detection.
#[derive(Clone, Copy, Debug, PartialEq, Eq, Structural)]
pub enum ResourceType {
    Mutex,
    Semaphore,
}

/// What a synchronisation call asks of the primitives and the scheduler.
#[derive(Clone, Copy, Debug, PartialEq, Eq, Structural)]
pub enum SyncRequest {
    /// Take the mutex in this slot, waiting for it where need be.
    Lock { mutex_id: usize, kind: MutexKind },
    /// Give the mutex in this slot back.
    Unlock { mutex_id: usize, kind: MutexKind },
    /// Take a unit of the semaphore in this slot, waiting for it where need be.
    Down { sem_id: usize },
    /// Give a unit of the semaphore in this slot back.
    Up { sem_id: usize },
    /// Wake a thread that waits on the condition variable in this slot.
    Signal { condvar_id: usize },
    /// Wait on the condition variable in this slot, without the mutex meanwhile.
    Wait { condvar_id: usize, mutex_id: usize, kind: MutexKind },
    /// Set a timer that wakes `task` at `expire_ms`.
    AddTimer { task: usize, expire_ms: usize },
    /// Block the current task and run the next one, until the task is woken.
    BlockCurrent,
}

/// Two requests to be performed once each, in this order, after which a call ends.
#[derive(Clone, Copy, Debug, PartialEq, Eq, Structural)]
pub struct InTurn {
    /// Performed first.
    pub first: SyncRequest,
    /// Performed once the first is done.
    pub second: SyncRequest,
    /// Result of the call, once both are done.
    pub result: isize,
}

/// What a process knows of its threads and synchronisation primitives.
///
/// The columns of the two tables number the resources: first the slots of
/// `mutex_list`, then those of `semaphore_list`.
#[derive(Clone, Debug)]
pub struct Process {
    /// Number of thread slots.
    pub thread_count: usize,
    /// Mutexes by slot.
    pub mutex_list: Vec<Option<MutexKind>>,
    /// Semaphores by slot.
    pub semaphore_list: Vec<Option<Semaphore>>,
    /// Condition variables by slot.
    pub condvar_list: Vec<Option<Condvar>>,
    /// Units of each semaphore, as far as recorded.
    pub semaphore_res_counts: Vec<usize>,
    /// Whether requests are checked for deadlock.
    pub deadlock_detection_enabled: bool,
    /// Units that each thread holds.
    pub allocation: Matrix,
    /// Units that each thread waits for.
    pub need: Matrix,
}

impl Process {
    /// Number of resources.
    pub open spec fn resources(self) -> nat {
        self.mutex_list@.len() + self.semaphore_list@.len()
    }

    /// Units that resource `j` has: one for a mutex, the recorded count for a
    /// semaphore, none where no count is recorded.
    pub open spec fn capacity(self, j: int) -> nat {
        let s = j - self.mutex_list@.len();
        if s < 0 {
            1
        } else if s < self.semaphore_res_counts@.len() {
            self.semaphore_res_counts@[s] as nat
        } else {
            0
        }
    }

    /// What each thread holds, with room for every thread and resource.
    pub open spec fn held(self) -> Seq<Seq<nat>> {
        expanded(self.allocation@, self.thread_count as nat, self.resources())
    }

    /// What each thread waits for, with room for every thread and resource.
    pub open spec fn awaited(self) -> Seq<Seq<nat>> {
        expanded(self.need@, self.thread_count as nat, self.resources())
    }

    /// What the process knows of resources, as claims.
    pub open spec fn claims(self) -> Claims {
        Claims {
            available: Seq::new(
                self.resources(),
                |j: int|
                    minus(self.capacity(j), column_sum(self.held(), j, self.thread_count as nat)),
            ),
            allocation: self.held(),
            need: self.awaited(),
            threads: self.thread_count as nat,
            resources: self.resources(),
        }
    }

    /// Resource `rid` and a cell of thread `tid` for it exist, and one more
    /// unit can be booked there without a count leaving the machine word.
    pub open spec fn can_book(self, tid: int, rid: int) -> bool {
        &&& self.resources() <= usize::MAX
        &&& 0 <= rid < self.resources()
        &&& has_cell(self.held(), tid, rid)
        &&& self.held()[tid][rid] < usize::MAX
        &&& forall|j: int|
            #![trigger column_sum(incremented(self.held(), tid, rid), j, self.thread_count as nat)]
            0 <= j < self.resources() ==> column_sum(
                incremented(self.held(), tid, rid),
                j,
                self.thread_count as nat,
            ) <= usize::MAX
    }

    /// As [`Self::can_book`], and one more unit can be waited for.
    pub open spec fn can_request(self, tid: int, rid: int) -> bool {
        &&& self.can_book(tid, rid)
        &&& has_cell(self.awaited(), tid, rid)
        &&& self.awaited()[tid][rid] < usize::MAX
    }

    /// Whether deadlock detection lets thread `tid` request a unit of `rid`.
    pub open spec fn grants(self, tid: int, rid: int) -> bool {
        self.claims().requested(tid, rid).handed(tid, rid).safe()
    }
}

/// A table that has the room keeps its shape when it is expanded again, also
/// after one of its cells has changed.
pub proof fn lemma_expanded_again(
    table: Seq<Seq<nat>>,
    threads: nat,
    resources: nat,
    i: int,
    j: int,
    v: nat,
)
    requires
        has_cell(expanded(table, threads, resources), i, j),
    ensures
        expanded(expanded(table, threads, resources), threads, resources) == expanded(
            table,
            threads,
            resources,
        ),
        ({
            let changed = with_cell(expanded(table, threads, resources), i, j, v);
            expanded(changed, threads, resources) == changed
        }),
{
    let wide = expanded(table, threads, resources);
    let changed = with_cell(wide, i, j, v);
    assert(expanded(wide, threads, resources) =~= wide) by {
        assert forall|k: int| 0 <= k < wide.len() implies #[trigger] expanded(
            wide,
            threads,
            resources,
        )[k] =~= wide[k] by {}
    }
    assert(expanded(changed, threads, resources) =~= changed) by {
        assert forall|k: int| 0 <= k < wide.len() implies #[trigger] expanded(
            changed,
            threads,
            resources,
        )[k] =~= changed[k] by {}
    }
}

/// Booking one more unit in a column raises its sum by at most one, and no
/// other column changes.
pub proof fn lemma_column_sum_incremented(
    table: Seq<Seq<nat>>,
    i: int,
    j: int,
    c: int,
    threads: nat,
)
    requires
        has_cell(table, i, j),
        threads <= table.len(),
        0 <= c,
        forall|k: int| 0 <= k < threads ==> c < (#[trigger] table[k]).len(),
    ensures
        column_sum(incremented(table, i, j), c, threads) == column_sum(table, c, threads) + (if c
            == j && i < threads {
            1nat
        } else {
            0nat
        }),
    decreases threads,
{
    if threads > 0 {
        lemma_column_sum_incremented(table, i, j, c, (threads - 1) as nat);
        assert(c < table[threads - 1].len());
    }
}

/// A cell that has changed and is put back leaves the table as it was.
proof fn lemma_cell_restored(table: Seq<Seq<nat>>, i: int, j: int, v: nat)
    requires
        has_cell(table, i, j),
    ensures
        with_cell(with_cell(table, i, j, v), i, j, table[i][j]) == table,
{
    assert(table[i].update(j, v).update(j, table[i][j]) =~= table[i]);
    assert(with_cell(with_cell(table, i, j, v), i, j, table[i][j]) =~= table);
}

/// Check if deadlock will occur using the banker's algorithm. Returns true if
/// safe (no deadlock), false if unsafe (deadlock detected).
///
/// The need of the thread already counts the unit that it asks for. Where a unit
/// of the resource is free, the thread is handed it for the check; where none is,
/// the claims are judged as they stand. The tables grow to full size and are
/// otherwise left as they were.
pub fn check_deadlock_internal(
    process: &mut Process,
    tid: usize,
    resource_id: usize,
    _resource_type: ResourceType,
) -> (is_safe: bool)
    requires
        old(process).can_book(tid as int, resource_id as int),
        has_cell(old(process).awaited(), tid as int, resource_id as int),
    ensures
        is_safe == old(process).claims().handed(tid as int, resource_id as int).safe(),
        *final(process) == (Process {
            allocation: final(process).allocation,
            need: final(process).need,
            ..*old(process)
        }),
        final(process).allocation@ == old(process).held(),
        final(process).need@ == old(process).awaited(),
{
    let ghost before = *process;
    let ghost claims = process.claims();
    let ghost t = tid as int;
    let ghost rid = resource_id as int;
    let mutex_count: usize = process.mutex_list.len();
    let semaphore_count: usize = process.semaphore_list.len();
    let resource_count: usize = mutex_count + semaphore_count;
    let thread_count: usize = process.thread_count;

    process.allocation.expand(thread_count, resource_count);
    process.need.expand(thread_count, resource_count);

    let mut available: Vec<usize> = Vec::new();
    available.resize(resource_count, 0);
    let mut i: usize = 0;
    while i < resource_count
        invariant
            i <= resource_count,
            resource_count == before.resources(),
            mutex_count == before.mutex_list@.len(),
            resource_count == mutex_count + semaphore_count,
            thread_count == before.thread_count,
            before.can_book(t, rid),
            claims == before.claims(),
            process.allocation@ == before.held(),
            process.semaphore_res_counts@ == before.semaphore_res_counts@,
            available@.len() == resource_count,
            forall|j: int| 0 <= j < i ==> #[trigger] available@[j] == claims.available[j],
            forall|j: int| i <= j < resource_count ==> #[trigger] available@[j] == 0,
        decreases resource_count - i,
    {
        proof {
            lemma_column_sum_incremented(before.held(), t, rid, i as int, thread_count as nat);
        }
        if i < mutex_count {
            let total: usize = process.allocation.column_total(i, thread_count);
            let left: usize = 1usize.saturating_sub(total);
            available.set(i, left);
        } else if i - mutex_count < process.semaphore_res_counts.len() {
            let res_count: usize = process.semaphore_res_counts[i - mutex_count];
            let total: usize = process.allocation.column_total(i, thread_count);
            let left: usize = res_count.saturating_sub(total);
            available.set(i, left);
        }
        i = i + 1;
    }
    assert(row_of(available@) =~= claims.available);

    let old_allocation: usize = process.allocation.get(tid, resource_id);
    let old_need: usize = process.need.get(tid, resource_id);
    let free: bool = available[resource_id] > 0;
    if free {
        let left: usize = available[resource_id] - 1;
        available.set(resource_id, left);
        process.allocation.set(tid, resource_id, old_allocation + 1);
        process.need.set(tid, resource_id, old_need.saturating_sub(1));
    }
    proof {
        let handed = claims.handed(t, rid);
        assert(row_of(available@) =~= handed.available);
        assert forall|j: int| 0 <= j < handed.resources implies #[trigger] handed.available[j]
            + column_sum(handed.allocation, j, handed.threads) <= usize::MAX by {
            lemma_column_sum_incremented(before.held(), t, rid, j, thread_count as nat);
            assert(claims.available[j] == minus(
                before.capacity(j),
                column_sum(before.held(), j, before.thread_count as nat),
            ));
        }
    }
    let is_safe: bool = all_can_finish(
        &available,
        &process.allocation,
        &process.need,
        thread_count,
        resource_count,
    );

    if free {
        process.allocation.set(tid, resource_id, old_allocation);
        process.need.set(tid, resource_id, old_need);
        proof {
            lemma_cell_restored(before.held(), t, rid, before.held()[t][rid] + 1);
            lemma_cell_restored(before.awaited(), t, rid, minus(before.awaited()[t][rid], 1));
        }
    }
    is_safe
}

/// Enters one more unit of need and checks the request. A request that is not
/// safe leaves the need as it was.
pub fn request(
    process: &mut Process,
    tid: usize,
    resource_id: usize,
    resource_type: ResourceType,
) -> (granted: bool)
    requires
        old(process).can_request(tid as int, resource_id as int),
    ensures
        granted == old(process).grants(tid as int, resource_id as int),
        *final(process) == (Process {
            allocation: final(process).allocation,
            need: final(process).need,
            ..*old(process)
        }),
        final(process).allocation@ == old(process).held(),
        final(process).need@ == (if granted {
            incremented(old(process).awaited(), tid as int, resource_id as int)
        } else {
            old(process).awaited()
        }),
{
    let ghost before = *process;
    let ghost t = tid as int;
    let ghost rid = resource_id as int;
    let ghost threads = process.thread_count as nat;
    let thread_count: usize = process.thread_count;
    let resource_count: usize = process.mutex_list.len() + process.semaphore_list.len();
    process.allocation.expand(thread_count, resource_count);
    process.need.expand(thread_count, resource_count);

    let wanted: usize = process.need.get(tid, resource_id);
    process.need.set(tid, resource_id, wanted + 1);
    proof {
        lemma_expanded_again(before.allocation@, threads, before.resources(), t, rid, 0);
        lemma_expanded_again(
            before.need@,
            threads,
            before.resources(),
            t,
            rid,
            before.awaited()[t][rid] + 1,
        );
        assert(process.held() == before.held());
        assert(process.awaited() == incremented(before.awaited(), t, rid));
        assert(process.claims().available =~= before.claims().available);
        assert(process.claims() == before.claims().requested(t, rid));
    }
    let granted: bool = check_deadlock_internal(process, tid, resource_id, resource_type);
    if !granted {
        process.need.set(tid, resource_id, wanted);
        proof {
            assert(process.need@ =~= before.awaited()) by {
                assert forall|k: int| 0 <= k < process.need@.len() implies #[trigger] process.need@[k]
                    =~= before.awaited()[k] by {}
            }
        }
    }
    granted
}

impl Process {
    /// `table` with the row of thread `tid` as wide as there are resources.
    pub open spec fn row_widened(self, table: Seq<Seq<nat>>, tid: int) -> Seq<Seq<nat>> {
        table.update(tid, padded(table[tid], self.resources()))
    }

    /// Thread `tid` has a row in both tables, each with a cell for `rid` once
    /// widened, and holds fewer units of it than a machine word counts.
    pub open spec fn can_acquire(self, tid: int, rid: int) -> bool {
        &&& self.resources() <= usize::MAX
        &&& 0 <= tid < self.allocation@.len()
        &&& 0 <= tid < self.need@.len()
        &&& has_cell(self.row_widened(self.allocation@, tid), tid, rid)
        &&& has_cell(self.row_widened(self.need@, tid), tid, rid)
        &&& self.row_widened(self.allocation@, tid)[tid][rid] < usize::MAX
    }

    /// What is held once thread `tid` has got a unit of `rid`.
    pub open spec fn held_once_acquired(self, tid: int, rid: int) -> Seq<Seq<nat>> {
        incremented(self.row_widened(self.allocation@, tid), tid, rid)
    }

    /// What is waited for once thread `tid` has got a unit of `rid`.
    pub open spec fn awaited_once_acquired(self, tid: int, rid: int) -> Seq<Seq<nat>> {
        decremented(self.row_widened(self.need@, tid), tid, rid)
    }

    /// What is held once thread `tid` has given a unit of `rid` back. Where the
    /// thread's row does not cover all resources yet, nothing is taken off.
    pub open spec fn held_once_released(self, tid: int, rid: int) -> Seq<Seq<nat>> {
        if tid < self.allocation@.len() && self.allocation@[tid].len() >= self.resources() {
            decremented(self.allocation@, tid, rid)
        } else {
            self.allocation@
        }
    }
}

/// Books a unit that a thread has got, and takes it off the thread's need.
fn acquire(process: &mut Process, tid: usize, resource_id: usize)
    requires
        old(process).can_acquire(tid as int, resource_id as int),
    ensures
        *final(process) == (Process {
            allocation: final(process).allocation,
            need: final(process).need,
            ..*old(process)
        }),
        final(process).allocation@ == old(process).held_once_acquired(
            tid as int,
            resource_id as int,
        ),
        final(process).need@ == old(process).awaited_once_acquired(tid as int, resource_id as int),
{
    let resource_count: usize = process.mutex_list.len() + process.semaphore_list.len();
    process.allocation.pad_row(tid, resource_count);
    process.need.pad_row(tid, resource_count);
    let has: usize = process.allocation.get(tid, resource_id);
    process.allocation.set(tid, resource_id, has + 1);
    let wanted: usize = process.need.get(tid, resource_id);
    if wanted > 0 {
        process.need.set(tid, resource_id, wanted - 1);
    } else {
        proof {
            lemma_with_same_cell(process.need@, tid as int, resource_id as int);
        }
    }
}

/// Putting the count that is there already changes nothing.
proof fn lemma_with_same_cell(table: Seq<Seq<nat>>, i: int, j: int)
    requires
        has_cell(table, i, j),
    ensures
        with_cell(table, i, j, table[i][j]) == table,
{
    assert(table[i].update(j, table[i][j]) =~= table[i]);
    assert(table.update(i, table[i]) =~= table);
}

/// Takes a unit off what a thread holds.
fn release(process: &mut Process, tid: usize, resource_id: usize)
    requires
        old(process).resources() <= usize::MAX,
        resource_id < old(process).resources(),
    ensures
        *final(process) == (Process { allocation: final(process).allocation, ..*old(process) }),
        final(process).allocation@ == old(process).held_once_released(
            tid as int,
            resource_id as int,
        ),
{
    let resource_count: usize = process.mutex_list.len() + process.semaphore_list.len();
    if process.allocation.rows.len() > tid && process.allocation.rows[tid].len() >= resource_count {
        let has: usize = process.allocation.get(tid, resource_id);
        if has > 0 {
            process.allocation.set(tid, resource_id, has - 1);
        } else {
            proof {
                lemma_with_same_cell(process.allocation@, tid as int, resource_id as int);
            }
        }
    }
}

impl Process {
    /// A process without synchronisation primitives.
    pub fn new(thread_count: usize) -> (process: Process)
        ensures
            process.thread_count == thread_count,
            process.mutex_list@.len() == 0,
            process.semaphore_list@.len() == 0,
            process.condvar_list@.len() == 0,
            process.semaphore_res_counts@.len() == 0,
            !process.deadlock_detection_enabled,
            process.allocation@.len() == 0,
            process.need@.len() == 0,
    {
        Process {
            thread_count,
            mutex_list: Vec::new(),
            semaphore_list: Vec::new(),
            condvar_list: Vec::new(),
            semaphore_res_counts: Vec::new(),
            deadlock_detection_enabled: false,
            allocation: Matrix::new(),
            need: Matrix::new(),
        }
    }
}

/// Whether a thread can request a unit of a resource, with deadlock detection on.
pub fn request_possible(process: &Process, tid: usize, resource_id: usize) -> (possible: bool)
    ensures
        possible == process.can_request(tid as int, resource_id as int),
{
    let mutex_count: usize = process.mutex_list.len();
    let semaphore_count: usize = process.semaphore_list.len();
    if semaphore_count > usize::MAX - mutex_count {
        return false;
    }
    let resource_count: usize = mutex_count + semaphore_count;
    let thread_count: usize = process.thread_count;
    if resource_id >= resource_count {
        return false;
    }
    if !process.allocation.will_have_cell(thread_count, resource_count, tid, resource_id) {
        return false;
    }
    if !process.need.will_have_cell(thread_count, resource_count, tid, resource_id) {
        return false;
    }
    if process.allocation.count_at(tid, resource_id) == usize::MAX {
        return false;
    }
    if process.need.count_at(tid, resource_id) == usize::MAX {
        return false;
    }
    let mut j: usize = 0;
    while j < resource_count
        invariant
            j <= resource_count,
            resource_count == process.resources(),
            thread_count == process.thread_count,
            has_cell(process.held(), tid as int, resource_id as int),
            forall|k: int|
                #![trigger column_sum(
                    incremented(process.held(), tid as int, resource_id as int),
                    k,
                    process.thread_count as nat,
                )]
                0 <= k < j ==> column_sum(
                    incremented(process.held(), tid as int, resource_id as int),
                    k,
                    process.thread_count as nat,
                ) <= usize::MAX,
        decreases resource_count - j,
    {
        proof {
            lemma_column_sum_incremented(
                process.held(),
                tid as int,
                resource_id as int,
                j as int,
                thread_count as nat,
            );
            lemma_expanded_sum(
                process.allocation@,
                thread_count as nat,
                resource_count as nat,
                j as int,
                thread_count as nat,
            );
        }
        let extra: usize = if j == resource_id && tid < thread_count {
            1
        } else {
            0
        };
        if !process.allocation.column_fits(j, thread_count, extra) {
            return false;
        }
        j = j + 1;
    }
    true
}

/// Whether a thread that has got a unit of a resource can book it, with deadlock
/// detection on.
pub fn acquire_possible(process: &Process, tid: usize, resource_id: usize) -> (possible: bool)
    ensures
        possible == process.can_acquire(tid as int, resource_id as int),
{
    let mutex_count: usize = process.mutex_list.len();
    let semaphore_count: usize = process.semaphore_list.len();
    if semaphore_count > usize::MAX - mutex_count {
        return false;
    }
    let resource_count: usize = mutex_count + semaphore_count;
    if tid >= process.allocation.rows.len() || tid >= process.need.rows.len() {
        return false;
    }
    if resource_id >= resource_count && resource_id >= process.allocation.rows[tid].len() {
        return false;
    }
    if resource_id >= resource_count && resource_id >= process.need.rows[tid].len() {
        return false;
    }
    process.allocation.count_at(tid, resource_id) < usize::MAX
}

/// Sleep syscall: one timer is set, `ms` milliseconds from now, and the task is
/// blocked after that.
pub fn sys_sleep(task: usize, now_ms: usize, ms: usize) -> (plan: InTurn)
    requires
        now_ms + ms <= usize::MAX,
    ensures
        plan == (InTurn {
            first: SyncRequest::AddTimer { task, expire_ms: (now_ms + ms) as usize },
            second: SyncRequest::BlockCurrent,
            result: 0,
        }),
{
    InTurn {
        first: SyncRequest::AddTimer { task, expire_ms: now_ms + ms },
        second: SyncRequest::BlockCurrent,
        result: 0,
    }
}

/// Mutex create syscall: the new mutex takes the first free slot.
pub fn sys_mutex_create(process: &mut Process, blocking: bool) -> (id: isize)
    ensures
        id == first_free(old(process).mutex_list@) as isize,
        *final(process) == (Process { mutex_list: final(process).mutex_list, ..*old(process) }),
        final(process).mutex_list@ == placed(
            old(process).mutex_list@,
            if blocking {
                MutexKind::Blocking
            } else {
                MutexKind::Spin
            },
        ),
{
    let kind = if !blocking {
        MutexKind::Spin
    } else {
        MutexKind::Blocking
    };
    let id: usize = place(&mut process.mutex_list, kind);
    id as isize
}

/// Mutex lock syscall, up to the point where the mutex is taken.
///
/// With deadlock detection, the request is checked first; a request that is not
/// safe is refused.
pub fn sys_mutex_lock(process: &mut Process, tid: usize, mutex_id: usize) -> (step: Step<SyncRequest>)
    requires
        old(process).deadlock_detection_enabled ==> old(process).can_request(
            tid as int,
            mutex_id as int,
        ),
        occupied(old(process).mutex_list@, mutex_id as int) || (
        old(process).deadlock_detection_enabled && !old(process).grants(
            tid as int,
            mutex_id as int,
        )),
    ensures
        lock_outcome(
            *old(process),
            *final(process),
            tid as int,
            mutex_id as int,
            SyncRequest::Lock {
                mutex_id,
                kind: old(process).mutex_list@[mutex_id as int]->0,
            },
            step,
        ),
{
    if process.deadlock_detection_enabled {
        if !request(process, tid, mutex_id, ResourceType::Mutex) {
            return Step::Return(DEADLOCK_RETURN);
        }
    }
    let kind = process.mutex_list[mutex_id].unwrap();
    Step::Perform(SyncRequest::Lock { mutex_id, kind })
}

/// What a call that takes a unit of `rid` does to the process, and how it goes
/// on: without deadlock detection it performs `take` at once; with it, a safe
/// request enters the need and performs `take`, and any other is refused.
pub open spec fn lock_outcome(
    before: Process,
    after: Process,
    tid: int,
    rid: int,
    take: SyncRequest,
    step: Step<SyncRequest>,
) -> bool {
    if !before.deadlock_detection_enabled {
        &&& after == before
        &&& step == Step::Perform(take)
    } else {
        &&& after == (Process { allocation: after.allocation, need: after.need, ..before })
        &&& after.allocation@ == before.held()
        &&& if before.grants(tid, rid) {
            &&& after.need@ == incremented(before.awaited(), tid, rid)
            &&& step == Step::Perform(take)
        } else {
            &&& after.need@ == before.awaited()
            &&& step == Step::<SyncRequest>::Return(DEADLOCK_RETURN)
        }
    }
}

/// What a call that has taken a unit of `rid` does to the process.
pub open spec fn taken_outcome(before: Process, after: Process, tid: int, rid: int) -> bool {
    if !before.deadlock_detection_enabled {
        after == before
    } else {
        &&& after == (Process { allocation: after.allocation, need: after.need, ..before })
        &&& after.allocation@ == before.held_once_acquired(tid, rid)
        &&& after.need@ == before.awaited_once_acquired(tid, rid)
    }
}

/// What a call that gives a unit of `rid` back does to the process.
pub open spec fn given_outcome(before: Process, after: Process, tid: int, rid: int) -> bool {
    if !before.deadlock_detection_enabled {
        after == before
    } else {
        &&& after == (Process { allocation: after.allocation, ..before })
        &&& after.allocation@ == before.held_once_released(tid, rid)
    }
}

/// Mutex lock syscall, once the mutex is taken.
pub fn mutex_lock_taken(process: &mut Process, tid: usize, mutex_id: usize) -> (result: isize)
    requires
        old(process).deadlock_detection_enabled ==> old(process).can_acquire(
            tid as int,
            mutex_id as int,
        ),
    ensures
        result == 0,
        taken_outcome(*old(process), *final(process), tid as int, mutex_id as int),
{
    if process.deadlock_detection_enabled {
        acquire(process, tid, mutex_id);
    }
    0
}

/// Mutex unlock syscall.
pub fn sys_mutex_unlock(process: &mut Process, tid: usize, mutex_id: usize) -> (step: Step<SyncRequest>)
    requires
        occupied(old(process).mutex_list@, mutex_id as int),
        old(process).deadlock_detection_enabled ==> old(process).resources() <= usize::MAX,
    ensures
        given_outcome(*old(process), *final(process), tid as int, mutex_id as int),
        step == Step::PerformThenReturn(
            SyncRequest::Unlock {
                mutex_id,
                kind: old(process).mutex_list@[mutex_id as int]->0,
            },
            0,
        ),
{
    if process.deadlock_detection_enabled {
        release(process, tid, mutex_id);
    }
    let kind = process.mutex_list[mutex_id].unwrap();
    Step::PerformThenReturn(SyncRequest::Unlock { mutex_id, kind }, 0)
}

/// The recorded semaphore counts once a semaphore of `res_count` units has
/// taken the first free slot of `list`.
pub open spec fn counts_with(
    counts: Seq<usize>,
    list: Seq<Option<Semaphore>>,
    res_count: usize,
) -> Seq<usize> {
    let slot = first_free(list);
    if slot >= list.len() {
        counts.push(res_count)
    } else if slot < counts.len() {
        counts.update(slot, res_count)
    } else {
        Seq::new(
            (slot + 1) as nat,
            |i: int|
                if i < counts.len() {
                    counts[i]
                } else if i < slot {
                    0
                } else {
                    res_count
                },
        )
    }
}

/// Semaphore create syscall: the new semaphore takes the first free slot, and
/// its count is recorded for deadlock detection.
pub fn sys_semaphore_create(process: &mut Process, res_count: usize) -> (id: isize)
    ensures
        id == first_free(old(process).semaphore_list@) as isize,
        *final(process) == (Process {
            semaphore_list: final(process).semaphore_list,
            semaphore_res_counts: final(process).semaphore_res_counts,
            ..*old(process)
        }),
        final(process).semaphore_list@ == placed(
            old(process).semaphore_list@,
            Semaphore { res_count },
        ),
        final(process).semaphore_res_counts@ == counts_with(
            old(process).semaphore_res_counts@,
            old(process).semaphore_list@,
            res_count,
        ),
{
    let ghost before = *process;
    let id: usize = find_free(&process.semaphore_list);
    if id < process.semaphore_list.len() {
        process.semaphore_list.set(id, Some(Semaphore { res_count }));
        if process.semaphore_res_counts.len() <= id {
            process.semaphore_res_counts.resize(id + 1, 0);
        }
        process.semaphore_res_counts.set(id, res_count);
    } else {
        process.semaphore_list.push(Some(Semaphore { res_count }));
        process.semaphore_res_counts.push(res_count);
    }
    assert(process.semaphore_res_counts@ =~= counts_with(
        before.semaphore_res_counts@,
        before.semaphore_list@,
        res_count,
    ));
    id as isize
}

/// Semaphore up syscall.
pub fn sys_semaphore_up(process: &mut Process, tid: usize, sem_id: usize) -> (step: Step<SyncRequest>)
    requires
        occupied(old(process).semaphore_list@, sem_id as int),
        old(process).deadlock_detection_enabled ==> old(process).resources() <= usize::MAX,
    ensures
        given_outcome(
            *old(process),
            *final(process),
            tid as int,
            old(process).mutex_list@.len() + sem_id,
        ),
        step == Step::PerformThenReturn(SyncRequest::Up { sem_id }, 0),
{
    if process.deadlock_detection_enabled {
        let mutex_count: usize = process.mutex_list.len();
        release(process, tid, mutex_count + sem_id);
    }
    Step::PerformThenReturn(SyncRequest::Up { sem_id }, 0)
}

/// Semaphore down syscall, up to the point where a unit is taken.
///
/// With deadlock detection, the request is checked first; a request that is not
/// safe is refused.
pub fn sys_semaphore_down(process: &mut Process, tid: usize, sem_id: usize) -> (step: Step<SyncRequest>)
    requires
        old(process).deadlock_detection_enabled ==> old(process).can_request(
            tid as int,
            old(process).mutex_list@.len() + sem_id,
        ),
        occupied(old(process).semaphore_list@, sem_id as int) || (
        old(process).deadlock_detection_enabled && !old(process).grants(
            tid as int,
            old(process).mutex_list@.len() + sem_id,
        )),
    ensures
        lock_outcome(
            *old(process),
            *final(process),
            tid as int,
            old(process).mutex_list@.len() + sem_id,
            SyncRequest::Down { sem_id },
            step,
        ),
{
    if process.deadlock_detection_enabled {
        let mutex_count: usize = process.mutex_list.len();
        if !request(process, tid, mutex_count + sem_id, ResourceType::Semaphore) {
            return Step::Return(DEADLOCK_RETURN);
        }
    }
    Step::Perform(SyncRequest::Down { sem_id })
}

/// Semaphore down syscall, once a unit is taken.
pub fn semaphore_down_taken(process: &mut Process, tid: usize, sem_id: usize) -> (result: isize)
    requires
        old(process).deadlock_detection_enabled ==> old(process).can_acquire(
            tid as int,
            old(process).mutex_list@.len() + sem_id,
        ),
        old(process).deadlock_detection_enabled ==> old(process).mutex_list@.len() + sem_id
            <= usize::MAX,
    ensures
        result == 0,
        taken_outcome(
            *old(process),
            *final(process),
            tid as int,
            old(process).mutex_list@.len() + sem_id,
        ),
{
    if process.deadlock_detection_enabled {
        let mutex_count: usize = process.mutex_list.len();
        acquire(process, tid, mutex_count + sem_id);
    }
    0
}

/// Condvar create syscall: the new condition variable takes the first free slot.
pub fn sys_condvar_create(process: &mut Process) -> (id: isize)
    ensures
        id == first_free(old(process).condvar_list@) as isize,
        *final(process) == (Process { condvar_list: final(process).condvar_list, ..*old(process) }),
        final(process).condvar_list@ == placed(old(process).condvar_list@, Condvar {  }),
{
    let id: usize = place(&mut process.condvar_list, Condvar {  });
    id as isize
}

/// Condvar signal syscall.
pub fn sys_condvar_signal(process: &Process, condvar_id: usize) -> (step: Step<SyncRequest>)
    requires
        occupied(process.condvar_list@, condvar_id as int),
    ensures
        step == Step::PerformThenReturn(SyncRequest::Signal { condvar_id }, 0),
{
    Step::PerformThenReturn(SyncRequest::Signal { condvar_id }, 0)
}

/// Condvar wait syscall.
pub fn sys_condvar_wait(process: &Process, condvar_id: usize, mutex_id: usize) -> (step: Step<SyncRequest>)
    requires
        occupied(process.condvar_list@, condvar_id as int),
        occupied(process.mutex_list@, mutex_id as int),
    ensures
        step == Step::PerformThenReturn(
            SyncRequest::Wait {
                condvar_id,
                mutex_id,
                kind: process.mutex_list@[mutex_id as int]->0,
            },
            0,
        ),
{
    let kind = process.mutex_list[mutex_id].unwrap();
    Step::PerformThenReturn(SyncRequest::Wait { condvar_id, mutex_id, kind }, 0)
}

/// Enable deadlock detection syscall: 1 turns it on, 0 turns it off and forgets
/// what is held and waited for; anything else is refused.
pub fn sys_enable_deadlock_detect(process: &mut Process, is_enable: usize) -> (result: isize)
    ensures
        is_enable > 1 ==> result == FAILED && *final(process) == *old(process),
        is_enable == 1 ==> result == 0 && *final(process) == (Process {
            deadlock_detection_enabled: true,
            ..*old(process)
        }),
        is_enable == 0 ==> {
            &&& result == 0
            &&& *final(process) == (Process {
                deadlock_detection_enabled: false,
                allocation: final(process).allocation,
                need: final(process).need,
                ..*old(process)
            })
            &&& final(process).allocation@.len() == 0
            &&& final(process).need@.len() == 0
        },
{
    if is_enable > 1 {
        return FAILED;
    }
    process.deadlock_detection_enabled = is_enable == 1;
    if is_enable == 0 {
        process.allocation.clear();
        process.need.clear();
    }
    0
}

} // verus!
