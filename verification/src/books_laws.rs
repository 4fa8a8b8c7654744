//! What holds of the books that deadlock detection keeps: who holds which unit,
//! who waits for which, and which requests are let through.
use crate::banker::Claims;
use crate::banker_laws::law_column_sum_bounds_each_thread;
use crate::banker_laws::law_deadlocked_threads_are_unsafe;
use crate::banker_laws::law_empty_column;
use crate::banker_laws::law_unsafe_claims_have_deadlocked_threads;
use crate::matrix::Matrix;
use crate::matrix::column_sum;
use crate::matrix::incremented;
use crate::slots::first_free;
use crate::slots::law_new_entry_takes_the_lowest_slot;
use crate::step::Step;
use crate::sync::Process;
use crate::sync::Semaphore;
use crate::sync::SyncRequest;
use crate::sync::counts_with;
use crate::sync::given_outcome;
use crate::sync::lemma_column_sum_incremented;
use crate::sync::lock_outcome;
use crate::sync::taken_outcome;
use vstd::prelude::*;

verus! {

/// Units that `table` has on record for thread `i` and resource `j`. A cell that
/// has not been needed yet stands for none.
pub open spec fn units(table: Matrix, i: int, j: int) -> int {
    if 0 <= i < table.rows@.len() && 0 <= j < table.rows@[i]@.len() {
        table.rows@[i]@[j] as int
    } else {
        0
    }
}

/// Units on record are the counts in the rows, and none beyond them.
pub proof fn law_units_are_the_counts(table: Matrix, i: int, j: int)
    ensures
        0 <= i < table.rows@.len() && 0 <= j < table.rows@[i]@.len() ==> units(table, i, j)
            == table.rows@[i]@[j],
        i < 0 || i >= table.rows@.len() ==> units(table, i, j) == 0,
        j < 0 || (0 <= i < table.rows@.len() && j >= table.rows@[i]@.len()) ==> units(table, i, j)
            == 0,
{
}

/// The claims that are judged are the books: one row for each thread, one column
/// for each mutex and then each semaphore, and in each cell what is on record.
pub proof fn law_claims_show_the_books(process: Process, i: int, j: int)
    requires
        0 <= i < process.thread_count,
        0 <= j < process.mutex_list@.len() + process.semaphore_list@.len(),
    ensures
        process.claims().threads == process.thread_count,
        process.claims().resources == process.mutex_list@.len() + process.semaphore_list@.len(),
        process.claims().available.len() == process.claims().resources,
        process.claims().allocation[i][j] == units(process.allocation, i, j),
        process.claims().need[i][j] == units(process.need, i, j),
        i < process.claims().allocation.len(),
        i < process.claims().need.len(),
        j < process.claims().allocation[i].len(),
        j < process.claims().need[i].len(),
{
}

/// A mutex that some thread holds has no unit left, whatever its kind.
pub proof fn law_held_mutex_is_not_free(process: Process, mutex_id: int, i: int)
    requires
        0 <= mutex_id < process.mutex_list@.len(),
        0 <= i < process.thread_count,
        units(process.allocation, i, mutex_id) > 0,
    ensures
        process.claims().available[mutex_id] == 0,
{
    law_column_sum_bounds_each_thread(
        process.held(),
        i,
        mutex_id,
        process.thread_count as nat,
    );
}

/// A mutex that no thread holds has one unit, whatever its kind.
pub proof fn law_unheld_mutex_is_free(process: Process, mutex_id: int)
    requires
        0 <= mutex_id < process.mutex_list@.len(),
        forall|i: int|
            0 <= i < process.thread_count ==> #[trigger] units(process.allocation, i, mutex_id)
                == 0,
    ensures
        process.claims().available[mutex_id] == 1,
{
    assert forall|i: int| 0 <= i < process.thread_count implies #[trigger] process.held()[i][mutex_id]
        == 0 by {
        assert(units(process.allocation, i, mutex_id) == 0);
    }
    law_empty_column(process.held(), mutex_id, process.thread_count as nat);
}

/// A mutex has at most one unit left, and none where any is on record as held.
pub proof fn law_mutex_has_one_unit(process: Process, mutex_id: int)
    requires
        0 <= mutex_id < process.mutex_list@.len(),
    ensures
        column_sum(process.held(), mutex_id, process.thread_count as nat) >= 1
            ==> process.claims().available[mutex_id] == 0,
        column_sum(process.held(), mutex_id, process.thread_count as nat) == 0
            ==> process.claims().available[mutex_id] == 1,
{
}

/// What is left of a semaphore and what its threads hold make up the count on
/// record for it; nothing is left where more is held or no count is recorded.
pub proof fn law_semaphore_units_add_up(process: Process, sem_id: int)
    requires
        0 <= sem_id < process.semaphore_list@.len(),
    ensures
        ({
            let claims = process.claims();
            let rid = process.mutex_list@.len() + sem_id;
            let held = column_sum(claims.allocation, rid, claims.threads);
            let counts = process.semaphore_res_counts@;
            &&& sem_id < counts.len() && held <= counts[sem_id] ==> claims.available[rid] + held
                == counts[sem_id]
            &&& sem_id < counts.len() && held > counts[sem_id] ==> claims.available[rid] == 0
            &&& sem_id >= counts.len() ==> claims.available[rid] == 0
        }),
{
}

/// A semaphore of which no unit is held has all the units on record for it.
pub proof fn law_unheld_semaphore_is_free(process: Process, sem_id: int)
    requires
        0 <= sem_id < process.semaphore_list@.len(),
        sem_id < process.semaphore_res_counts@.len(),
        forall|i: int|
            0 <= i < process.thread_count ==> #[trigger] units(
                process.allocation,
                i,
                process.mutex_list@.len() + sem_id,
            ) == 0,
    ensures
        process.claims().available[process.mutex_list@.len() + sem_id]
            == process.semaphore_res_counts@[sem_id],
{
    let rid = process.mutex_list@.len() + sem_id;
    assert forall|i: int| 0 <= i < process.thread_count implies #[trigger] process.held()[i][rid]
        == 0 by {
        assert(units(process.allocation, i, rid) == 0);
    }
    law_empty_column(process.held(), rid, process.thread_count as nat);
}

/// Asking for a unit raises what the thread waits for by one, and nothing else
/// about the claims changes.
pub proof fn law_request_is_waited_for(process: Process, tid: int, rid: int, i: int, j: int)
    requires
        0 <= tid < process.thread_count,
        0 <= rid < process.mutex_list@.len() + process.semaphore_list@.len(),
        0 <= i < process.thread_count,
        0 <= j < process.mutex_list@.len() + process.semaphore_list@.len(),
    ensures
        ({
            let asked = process.claims().requested(tid, rid);
            &&& asked.threads == process.thread_count
            &&& asked.resources == process.mutex_list@.len() + process.semaphore_list@.len()
            &&& asked.available == process.claims().available
            &&& asked.allocation == process.claims().allocation
            &&& asked.need[i][j] == units(process.need, i, j) + (if i == tid && j == rid {
                1int
            } else {
                0int
            })
        }),
{
}

/// A request is let through exactly if all threads can finish once it has been
/// answered: a free unit goes to the thread, which then waits for no more than
/// before, and where no unit is free the thread waits.
pub proof fn law_request_is_judged_as_answered(
    process: Process,
    tid: int,
    rid: int,
    i: int,
    j: int,
) -> (answered: Claims)
    requires
        0 <= tid < process.thread_count,
        0 <= rid < process.mutex_list@.len() + process.semaphore_list@.len(),
        0 <= i < process.thread_count,
        0 <= j < process.mutex_list@.len() + process.semaphore_list@.len(),
    ensures
        process.grants(tid, rid) == answered.safe(),
        answered.threads == process.thread_count,
        answered.resources == process.mutex_list@.len() + process.semaphore_list@.len(),
        process.claims().available[rid] > 0 ==> {
            &&& answered.available[j] == process.claims().available[j] - (if j == rid {
                1int
            } else {
                0int
            })
            &&& answered.allocation[i][j] == units(process.allocation, i, j) + (if i == tid && j
                == rid {
                1int
            } else {
                0int
            })
            &&& answered.need[i][j] == units(process.need, i, j)
        },
        process.claims().available[rid] == 0 ==> {
            &&& answered.available[j] == process.claims().available[j]
            &&& answered.allocation[i][j] == units(process.allocation, i, j)
            &&& answered.need[i][j] == units(process.need, i, j) + (if i == tid && j == rid {
                1int
            } else {
                0int
            })
        },
{
    process.claims().requested(tid, rid).handed(tid, rid)
}

/// What mutexes are makes no difference to whether a request is let through: two
/// processes with the same books and as many slots answer alike.
pub proof fn law_kinds_do_not_matter(a: Process, b: Process, tid: int, rid: int)
    requires
        a.mutex_list@.len() == b.mutex_list@.len(),
        a.semaphore_list@.len() == b.semaphore_list@.len(),
        a.semaphore_res_counts == b.semaphore_res_counts,
        a.thread_count == b.thread_count,
        a.allocation == b.allocation,
        a.need == b.need,
    ensures
        a.grants(tid, rid) == b.grants(tid, rid),
{
    assert(a.claims().available =~= b.claims().available);
}

/// Without deadlock detection a request goes ahead and nothing is written down.
/// With it, a request goes ahead exactly if it is let through, and a refused one
/// is answered with the deadlock result. One that goes ahead is written down as
/// waited for; no other count of either table changes, nor anything else.
pub proof fn law_request_is_written_down(
    before: Process,
    after: Process,
    tid: int,
    rid: int,
    take: SyncRequest,
    step: Step<SyncRequest>,
    i: int,
    j: int,
)
    requires
        before.deadlock_detection_enabled ==> before.can_request(tid, rid),
        lock_outcome(before, after, tid, rid, take, step),
    ensures
        !before.deadlock_detection_enabled ==> after == before && step is Perform,
        before.deadlock_detection_enabled ==> (step is Perform <==> before.grants(tid, rid)),
        step is Perform ==> step->Perform_0 == take,
        step !is Perform ==> step is Return && step->Return_0 == -0xDEAD,
        units(after.allocation, i, j) == units(before.allocation, i, j),
        units(after.need, i, j) == units(before.need, i, j) + (if
            before.deadlock_detection_enabled && step is Perform && i == tid && j == rid {
            1int
        } else {
            0int
        }),
        before.deadlock_detection_enabled && 0 <= i < before.thread_count && 0 <= j
            < before.mutex_list@.len() + before.semaphore_list@.len() ==> {
            &&& i < after.allocation.rows@.len()
            &&& i < after.need.rows@.len()
            &&& j < after.allocation.rows@[i]@.len()
            &&& j < after.need.rows@[i]@.len()
        },
        after.thread_count == before.thread_count,
        after.mutex_list == before.mutex_list,
        after.semaphore_list == before.semaphore_list,
        after.condvar_list == before.condvar_list,
        after.semaphore_res_counts == before.semaphore_res_counts,
        after.deadlock_detection_enabled == before.deadlock_detection_enabled,
{
    lemma_units(before.allocation, i, j);
    lemma_units(after.allocation, i, j);
    lemma_units(before.need, i, j);
    lemma_units(after.need, i, j);
    if before.deadlock_detection_enabled {
        lemma_shape(after.allocation, i);
        lemma_shape(after.need, i);
    }
}

/// Units on record, read off the counts that a table stands for.
proof fn lemma_units(table: Matrix, i: int, j: int)
    ensures
        units(table, i, j) == (if 0 <= i < table@.len() && 0 <= j < table@[i].len() {
            table@[i][j] as int
        } else {
            0
        }),
{
}

/// A table has as many rows, each as long, as it stands for.
proof fn lemma_shape(table: Matrix, i: int)
    ensures
        table@.len() == table.rows@.len(),
        0 <= i < table@.len() ==> table@[i].len() == table.rows@[i]@.len(),
{
}

/// With deadlock detection, a unit that a thread has got is on record as held by
/// it and no longer as waited for. No other count changes, nor anything else.
pub proof fn law_taken_unit_changes_hands(
    before: Process,
    after: Process,
    tid: int,
    rid: int,
    i: int,
    j: int,
)
    requires
        before.deadlock_detection_enabled ==> before.can_acquire(tid, rid),
        taken_outcome(before, after, tid, rid),
    ensures
        !before.deadlock_detection_enabled ==> after == before,
        before.deadlock_detection_enabled ==> {
            &&& units(after.allocation, i, j) == units(before.allocation, i, j) + (if i == tid && j
                == rid {
                1int
            } else {
                0int
            })
            &&& units(after.need, i, j) == units(before.need, i, j) - (if i == tid && j == rid
                && units(before.need, i, j) > 0 {
                1int
            } else {
                0int
            })
        },
        after.thread_count == before.thread_count,
        after.mutex_list == before.mutex_list,
        after.semaphore_list == before.semaphore_list,
        after.condvar_list == before.condvar_list,
        after.semaphore_res_counts == before.semaphore_res_counts,
        after.deadlock_detection_enabled == before.deadlock_detection_enabled,
{
    lemma_units(before.allocation, i, j);
    lemma_units(after.allocation, i, j);
    lemma_units(before.need, i, j);
    lemma_units(after.need, i, j);
}

/// With deadlock detection, a unit that a thread gives back is taken off what it
/// holds, where its row covers all resources and has one to take. No other count
/// changes, nor anything else.
pub proof fn law_returned_unit_is_taken_off(
    before: Process,
    after: Process,
    tid: int,
    rid: int,
    i: int,
    j: int,
)
    requires
        0 <= tid,
        0 <= rid < before.mutex_list@.len() + before.semaphore_list@.len(),
        given_outcome(before, after, tid, rid),
    ensures
        !before.deadlock_detection_enabled ==> after == before,
        before.deadlock_detection_enabled ==> units(after.allocation, i, j) == units(
            before.allocation,
            i,
            j,
        ) - (if i == tid && j == rid && units(before.allocation, i, j) > 0
            && before.allocation.rows@[tid]@.len() >= before.mutex_list@.len()
            + before.semaphore_list@.len() {
            1int
        } else {
            0int
        }),
        after.need == before.need,
        after.thread_count == before.thread_count,
        after.mutex_list == before.mutex_list,
        after.semaphore_list == before.semaphore_list,
        after.condvar_list == before.condvar_list,
        after.semaphore_res_counts == before.semaphore_res_counts,
        after.deadlock_detection_enabled == before.deadlock_detection_enabled,
{
    lemma_units(before.allocation, i, j);
    lemma_units(after.allocation, i, j);
    lemma_shape(before.allocation, tid);
}

/// The count of a new semaphore is recorded in its slot, where a slot of the list
/// was free or there was one count for each slot. The counts of all other slots
/// stay, and slots without a count so far get zero.
pub proof fn law_new_count_is_recorded(
    counts: Seq<usize>,
    list: Seq<Option<Semaphore>>,
    res_count: usize,
    i: int,
)
    requires
        first_free(list) < list.len() || counts.len() == list.len(),
    ensures
        ({
            let after = counts_with(counts, list, res_count);
            let slot = first_free(list);
            &&& slot < after.len()
            &&& counts.len() <= after.len()
            &&& after[slot] == res_count
            &&& 0 <= i < counts.len() && i != slot ==> after[i] == counts[i]
            &&& counts.len() <= i < after.len() && i != slot ==> after[i] == 0
        }),
{
    law_new_entry_takes_the_lowest_slot(list, Semaphore { res_count });
}

/// A count for a semaphore at the end of the list goes to the end of the counts,
/// and every count before it stays.
pub proof fn law_new_count_at_the_end(
    counts: Seq<usize>,
    list: Seq<Option<Semaphore>>,
    res_count: usize,
    i: int,
)
    requires
        forall|k: int| 0 <= k < list.len() ==> #[trigger] list[k] is Some,
    ensures
        counts_with(counts, list, res_count).len() == counts.len() + 1,
        counts_with(counts, list, res_count)[counts.len() as int] == res_count,
        0 <= i < counts.len() ==> counts_with(counts, list, res_count)[i] == counts[i],
{
    law_new_entry_takes_the_lowest_slot(list, Semaphore { res_count });
}

/// A thread of the process can ask for a unit of any resource, as long as no
/// count leaves the machine word.
pub proof fn law_request_can_be_made(process: Process, tid: int, rid: int)
    requires
        process.mutex_list@.len() + process.semaphore_list@.len() <= usize::MAX,
        0 <= tid < process.thread_count,
        0 <= rid < process.mutex_list@.len() + process.semaphore_list@.len(),
        units(process.need, tid, rid) < usize::MAX,
        forall|j: int|
            0 <= j < process.mutex_list@.len() + process.semaphore_list@.len()
                ==> #[trigger] column_sum(
                process.claims().allocation,
                j,
                process.thread_count as nat,
            ) < usize::MAX,
    ensures
        process.can_request(tid, rid),
{
    let threads = process.thread_count as nat;
    law_column_sum_bounds_each_thread(process.held(), tid, rid, threads);
    assert(column_sum(process.claims().allocation, rid, threads) < usize::MAX);
    assert forall|j: int| 0 <= j < process.resources() implies column_sum(
        incremented(process.held(), tid, rid),
        j,
        threads,
    ) <= usize::MAX by {
        assert(column_sum(process.claims().allocation, j, threads) < usize::MAX);
        lemma_column_sum_incremented(process.held(), tid, rid, j, threads);
    }
}

/// A request that went ahead can be completed: the unit can be put on record as
/// soon as the thread has it.
pub proof fn law_granted_request_can_be_completed(
    before: Process,
    after: Process,
    tid: int,
    rid: int,
    take: SyncRequest,
    step: Step<SyncRequest>,
)
    requires
        before.deadlock_detection_enabled,
        before.can_request(tid, rid),
        lock_outcome(before, after, tid, rid, take, step),
    ensures
        after.can_acquire(tid, rid),
{
}

/// A request that closes a ring is refused: thread `ring[0]` asks for a mutex
/// that `ring[1]` holds, each further thread waits for one that the next holds,
/// and the last for one that `ring[0]` holds. The answer is the deadlock result,
/// and the request is not written down.
pub proof fn law_closed_ring_is_refused(
    before: Process,
    after: Process,
    take: SyncRequest,
    step: Step<SyncRequest>,
    ring: Seq<int>,
    mutexes: Seq<int>,
)
    requires
        ring.len() > 0,
        ring.len() == mutexes.len(),
        before.deadlock_detection_enabled,
        before.can_request(ring[0], mutexes[0]),
        lock_outcome(before, after, ring[0], mutexes[0], take, step),
        forall|k: int| 0 <= k < ring.len() ==> 0 <= #[trigger] ring[k] < before.thread_count,
        forall|k: int|
            0 <= k < mutexes.len() ==> 0 <= #[trigger] mutexes[k] < before.mutex_list@.len(),
        forall|k: int|
            0 < k < ring.len() ==> units(before.need, #[trigger] ring[k], mutexes[k]) > 0,
        forall|k: int, i: int|
            0 <= k < mutexes.len() && 0 <= i < before.thread_count ==> (#[trigger] units(
                before.allocation,
                i,
                mutexes[k],
            ) > 0 <==> i == (if k + 1 < ring.len() {
                ring[k + 1]
            } else {
                ring[0]
            })),
    ensures
        step is Return,
        step->Return_0 == -0xDEAD,
        forall|i: int, j: int| #[trigger]
            units(after.need, i, j) == units(before.need, i, j),
        forall|i: int, j: int| #[trigger]
            units(after.allocation, i, j) == units(before.allocation, i, j),
{
    let tid = ring[0];
    let rid = mutexes[0];
    let claims = before.claims();
    let holder = if 1 < ring.len() {
        ring[1]
    } else {
        ring[0]
    };
    assert(0 <= holder < before.thread_count);
    assert(units(before.allocation, holder, mutexes[0]) > 0);
    law_held_mutex_is_not_free(before, rid, holder);
    let asked = claims.requested(tid, rid);
    let stuck = Set::new(|i: int| ring.contains(i));
    let others = Seq::new(
        asked.threads,
        |k: int|
            if stuck.contains(k) {
                Seq::new(asked.resources, |j: int| 0nat)
            } else {
                asked.allocation[k]
            },
    );
    assert forall|i: int| 0 <= i < asked.threads && #[trigger] stuck.contains(i) implies exists|j: int|
        0 <= j < asked.resources && #[trigger] asked.need[i][j] > asked.available[j] + column_sum(
            others,
            j,
            asked.threads,
        ) by {
        let k = choose|k: int| 0 <= k < ring.len() && ring[k] == i;
        let m = mutexes[k];
        let next = if k + 1 < ring.len() {
            ring[k + 1]
        } else {
            ring[0]
        };
        assert(0 <= next < before.thread_count);
        assert(ring.contains(next));
        assert(units(before.allocation, next, mutexes[k]) > 0);
        law_held_mutex_is_not_free(before, m, next);
        assert forall|q: int| 0 <= q < asked.threads implies #[trigger] others[q][m] == 0 by {
            if !stuck.contains(q) {
                law_claims_show_the_books(before, q, m);
                assert(units(before.allocation, q, mutexes[k]) == 0);
            }
        }
        law_empty_column(others, m, asked.threads);
        law_request_is_waited_for(before, tid, rid, i, m);
        if k > 0 {
            assert(units(before.need, ring[k], mutexes[k]) > 0);
        }
        assert(asked.need[i][m] > 0);
    }
    assert(ring.contains(tid));
    law_deadlocked_threads_are_unsafe(asked, stuck, others, tid);
    law_request_is_judged_as_answered(before, tid, rid, tid, rid);
    assert(!before.grants(tid, rid));
    assert forall|i: int, j: int| #[trigger] units(after.need, i, j) == units(before.need, i, j) by {
        law_request_is_written_down(before, after, tid, rid, take, step, i, j);
    }
    assert forall|i: int, j: int| #[trigger]
        units(after.allocation, i, j) == units(before.allocation, i, j) by {
        law_request_is_written_down(before, after, tid, rid, take, step, i, j);
    }
}

/// Waiting for a held mutex is let through where nobody waits in a circle: every
/// thread that waits does so for one unit of a mutex at a time, which is free or
/// held by a thread of lower rank. The request itself counts as waiting.
pub proof fn law_waiting_in_line_is_granted(
    process: Process,
    tid: int,
    rid: int,
    holder: int,
    rank: spec_fn(int) -> nat,
)
    requires
        0 <= tid < process.thread_count,
        0 <= rid < process.mutex_list@.len(),
        0 <= holder < process.thread_count,
        units(process.allocation, holder, rid) > 0,
        rank(holder) < rank(tid),
        units(process.need, tid, rid) == 0,
        forall|i: int, j: int|
            0 <= i < process.thread_count && 0 <= j < process.mutex_list@.len()
                + process.semaphore_list@.len() && #[trigger] units(process.need, i, j) > 0 ==> {
                &&& units(process.need, i, j) == 1
                &&& j < process.mutex_list@.len()
                &&& (process.claims().available[j] == 1 || exists|k: int|
                    0 <= k < process.thread_count && #[trigger] units(process.allocation, k, j) > 0
                        && rank(k) < rank(i))
            },
    ensures
        process.grants(tid, rid),
{
    law_held_mutex_is_not_free(process, rid, holder);
    let asked = process.claims().requested(tid, rid);
    if !asked.safe() {
        let (stuck, others, one) = law_unsafe_claims_have_deadlocked_threads(asked);
        let i = lemma_lowest_rank(stuck, rank, asked.threads, one);
        let j = choose|j: int|
            0 <= j < asked.resources && #[trigger] asked.need[i][j] > asked.available[j]
                + column_sum(others, j, asked.threads);
        law_request_is_waited_for(process, tid, rid, i, j);
        if i != tid || j != rid {
            assert(units(process.need, i, j) > 0);
        }
        let k = if i == tid && j == rid {
            holder
        } else {
            choose|k: int|
                0 <= k < process.thread_count && #[trigger] units(process.allocation, k, j) > 0
                    && rank(k) < rank(i)
        };
        assert(0 <= k < process.thread_count && units(process.allocation, k, j) > 0 && rank(k)
            < rank(i));
        assert(!stuck.contains(k));
        law_claims_show_the_books(process, k, j);
        assert(others[k][j] == asked.allocation[k][j]);
        law_column_sum_bounds_each_thread(others, k, j, asked.threads);
    }
}

/// A thread in the set that no other thread in it ranks below.
proof fn lemma_lowest_rank(
    group: Set<int>,
    rank: spec_fn(int) -> nat,
    threads: nat,
    one: int,
) -> (lowest: int)
    requires
        group.contains(one),
        0 <= one < threads,
    ensures
        group.contains(lowest),
        0 <= lowest < threads,
        forall|k: int|
            0 <= k < threads && rank(k) < rank(lowest) ==> !#[trigger] group.contains(k),
    decreases rank(one),
{
    if exists|k: int| 0 <= k < threads && rank(k) < rank(one) && #[trigger] group.contains(k) {
        let k = choose|k: int|
            0 <= k < threads && rank(k) < rank(one) && #[trigger] group.contains(k);
        lemma_lowest_rank(group, rank, threads, k)
    } else {
        one
    }
}

} // verus!
