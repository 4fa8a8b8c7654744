//! What holds of the synchronisation calls as a whole.
use crate::banker::Claims;
use crate::banker::held_by;
use crate::banker::lemma_held_subset;
use crate::banker_laws::law_empty_column;
use crate::matrix::column_sum;
use crate::matrix::count;
use crate::matrix::has_cell;
use crate::matrix::incremented;
use crate::matrix::larger;
use crate::matrix::minus;
use crate::matrix::padded;
use crate::matrix::with_cell;
use crate::slots::lemma_first_free;
use crate::slots::placed;
use crate::step::Step;
use crate::sync::DEADLOCK_RETURN;
use crate::sync::Process;
use crate::sync::Semaphore;
use crate::sync::SyncRequest;
use crate::sync::counts_with;
use crate::sync::given_outcome;
use crate::sync::lemma_column_sum_incremented;
use crate::sync::lemma_expanded_again;
use crate::sync::lock_outcome;
use crate::sync::taken_outcome;
use vstd::prelude::*;

verus! {

/// Two tables hold the same counts, wherever they have cells.
pub open spec fn same_counts(a: Seq<Seq<nat>>, b: Seq<Seq<nat>>) -> bool {
    forall|i: int, j: int| #[trigger] count(a, i, j) == count(b, i, j)
}

/// A refused request is answered with the deadlock result, comes only with
/// deadlock detection on, and leaves every count of what is held and waited for
/// as it was.
pub proof fn law_refused_request_changes_nothing(
    before: Process,
    after: Process,
    tid: int,
    rid: int,
    take: SyncRequest,
    result: isize,
)
    requires
        lock_outcome(before, after, tid, rid, take, Step::Return(result)),
    ensures
        result == DEADLOCK_RETURN,
        before.deadlock_detection_enabled,
        !before.grants(tid, rid),
        same_counts(after.allocation@, before.allocation@),
        same_counts(after.need@, before.need@),
        after == (Process { allocation: after.allocation, need: after.need, ..before }),
{
}

/// Taking a unit and giving it back leaves every count of what is held and
/// waited for as it was.
pub proof fn law_take_and_give_back(
    start: Process,
    waiting: Process,
    holding: Process,
    end: Process,
    tid: int,
    rid: int,
    take: SyncRequest,
)
    requires
        start.deadlock_detection_enabled ==> start.can_request(tid, rid),
        lock_outcome(start, waiting, tid, rid, take, Step::Perform(take)),
        taken_outcome(waiting, holding, tid, rid),
        given_outcome(holding, end, tid, rid),
    ensures
        same_counts(end.allocation@, start.allocation@),
        same_counts(end.need@, start.need@),
        end == (Process { allocation: end.allocation, need: end.need, ..start }),
{
}

/// Taking a unit books exactly that unit to the thread, and nobody waits for
/// anything more or less than before.
pub proof fn law_taken_unit_is_booked(
    start: Process,
    waiting: Process,
    holding: Process,
    tid: int,
    rid: int,
    take: SyncRequest,
)
    requires
        start.deadlock_detection_enabled,
        start.can_request(tid, rid),
        lock_outcome(start, waiting, tid, rid, take, Step::Perform(take)),
        taken_outcome(waiting, holding, tid, rid),
    ensures
        count(holding.allocation@, tid, rid) == count(start.allocation@, tid, rid) + 1,
        forall|i: int, j: int|
            i != tid || j != rid ==> #[trigger] count(holding.allocation@, i, j) == count(
                start.allocation@,
                i,
                j,
            ),
        same_counts(holding.need@, start.need@),
{
}

/// Booking a unit raises what a group holds in its column by one if the group
/// has the thread, and changes nothing else.
proof fn lemma_held_incremented(
    table: Seq<Seq<nat>>,
    tid: int,
    rid: int,
    group: Seq<int>,
    j: int,
)
    requires
        has_cell(table, tid, rid),
        group.no_duplicates(),
        forall|k: int| 0 <= k < group.len() ==> has_cell(table, #[trigger] group[k], j),
    ensures
        held_by(incremented(table, tid, rid), group, j) == held_by(table, group, j) + (if j == rid
            && group.contains(tid) {
            1nat
        } else {
            0nat
        }),
    decreases group.len(),
{
    if group.len() > 0 {
        let rest = group.drop_last();
        assert forall|k: int| 0 <= k < rest.len() implies has_cell(table, #[trigger] rest[k], j) by {
            assert(has_cell(table, group[k], j));
        }
        lemma_held_incremented(table, tid, rid, rest, j);
        assert(has_cell(table, group[group.len() - 1], j));
        if rest.contains(tid) {
            let w = choose|w: int| 0 <= w < rest.len() && rest[w] == tid;
            assert(group[w] == tid);
        }
        if group.contains(tid) && group.last() != tid {
            let w = choose|w: int| 0 <= w < group.len() && group[w] == tid;
            assert(rest[w] == tid);
        }
    }
}

/// With a free unit handed to the thread, one unit less of the resource is free
/// until the thread has finished. Nothing else changes.
proof fn lemma_free_after_handing(claims: Claims, tid: int, rid: int, group: Seq<int>, j: int)
    requires
        claims.well_formed(),
        claims.partial_order(group),
        has_cell(claims.allocation, tid, rid),
        0 <= rid < claims.resources,
        0 <= j < claims.resources,
        claims.available[rid] > 0,
    ensures
        claims.handed(tid, rid).free_after(group, j) + (if j == rid && !group.contains(tid) {
            1nat
        } else {
            0nat
        }) == claims.free_after(group, j),
{
    assert forall|k: int| 0 <= k < group.len() implies has_cell(
        claims.allocation,
        #[trigger] group[k],
        j,
    ) by {
        assert(claims.allocation[group[k]].len() >= claims.resources);
    }
    lemma_held_incremented(claims.allocation, tid, rid, group, j);
}

/// The front of an order is an order too.
proof fn lemma_order_front(claims: Claims, order: Seq<int>, k: int)
    requires
        claims.partial_order(order),
        0 <= k <= order.len(),
    ensures
        claims.partial_order(order.take(k)),
{
    assert forall|p: int| 0 <= p < k implies 0 <= #[trigger] order.take(k)[p] < claims.threads by {
        assert(order.take(k)[p] == order[p]);
    }
}

/// A thread that comes at some place of an order comes at no earlier one.
proof fn lemma_not_before(claims: Claims, order: Seq<int>, k: int)
    requires
        claims.partial_order(order),
        0 <= k < order.len(),
    ensures
        !order.take(k).contains(order[k]),
{
    if order.take(k).contains(order[k]) {
        let q = choose|q: int| 0 <= q < k && order.take(k)[q] == order[k];
        assert(order[q] == order[k]);
    }
}

/// Whether every thread that comes before `tid` in `order` could be served with a
/// unit of `rid` to spare.
pub open spec fn leaves_a_unit(claims: Claims, order: Seq<int>, tid: int, rid: int) -> bool {
    forall|k: int|
        0 <= k < order.len() && order[k] != tid && !order.take(k).contains(tid)
            ==> claims.need[#[trigger] order[k]][rid] < claims.free_after(order.take(k), rid)
}

/// Whether all threads can finish in `order` with a unit of `rid` set aside for
/// `tid` until its turn.
pub open spec fn finishes_with_a_unit_kept(
    claims: Claims,
    order: Seq<int>,
    tid: int,
    rid: int,
) -> bool {
    &&& claims.full_order(order)
    &&& claims.runs(order)
    &&& leaves_a_unit(claims, order, tid, rid)
}

/// An order lets all threads finish with the unit handed over exactly if it does
/// so with the thread waiting and a unit kept for it.
proof fn lemma_handed_order(claims: Claims, tid: int, rid: int, order: Seq<int>)
    requires
        claims.well_formed(),
        claims.full_order(order),
        has_cell(claims.allocation, tid, rid),
        has_cell(claims.need, tid, rid),
        0 <= rid < claims.resources,
        claims.available[rid] > 0,
        claims.need[tid][rid] > 0,
    ensures
        claims.handed(tid, rid).runs(order) == finishes_with_a_unit_kept(claims, order, tid, rid),
{
    let handed = claims.handed(tid, rid);
    assert forall|k: int, j: int|
        0 <= k < order.len() && 0 <= j < claims.resources implies #[trigger] handed.free_after(
        order.take(k),
        j,
    ) + (if j == rid && !order.take(k).contains(tid) {
        1nat
    } else {
        0nat
    }) == claims.free_after(order.take(k), j) by {
        lemma_order_front(claims, order, k);
        lemma_free_after_handing(claims, tid, rid, order.take(k), j);
    }
    assert forall|k: int, j: int|
        0 <= k < order.len() && 0 <= j < claims.resources implies #[trigger] handed.need[order[k]][j]
        + (if j == rid && order[k] == tid {
        1nat
    } else {
        0nat
    }) == claims.need[order[k]][j] by {
        assert(claims.need[order[k]].len() >= claims.resources);
    }
    if handed.runs(order) {
        assert forall|k: int| 0 <= k < order.len() implies claims.served_after(
            order.take(k),
            #[trigger] order[k],
        ) by {
            lemma_not_before(claims, order, k);
            assert(handed.served_after(order.take(k), order[k]));
            assert forall|j: int| 0 <= j < claims.resources implies #[trigger] claims.need[order[k]][j]
                <= claims.free_after(order.take(k), j) by {
                assert(handed.need[order[k]][j] <= handed.free_after(order.take(k), j));
            }
        }
        assert forall|k: int|
            0 <= k < order.len() && order[k] != tid && !order.take(k).contains(
                tid,
            ) implies claims.need[#[trigger] order[k]][rid] < claims.free_after(order.take(k), rid) by {
            assert(handed.served_after(order.take(k), order[k]));
            assert(handed.need[order[k]][rid] <= handed.free_after(order.take(k), rid));
        }
    }
    if finishes_with_a_unit_kept(claims, order, tid, rid) {
        assert forall|k: int| 0 <= k < order.len() implies handed.served_after(
            order.take(k),
            #[trigger] order[k],
        ) by {
            assert(claims.served_after(order.take(k), order[k]));
            assert forall|j: int| 0 <= j < handed.resources implies #[trigger] handed.need[order[k]][j]
                <= handed.free_after(order.take(k), j) by {
                assert(claims.need[order[k]][j] <= claims.free_after(order.take(k), j));
            }
        }
    }
}

/// Where a unit of the resource is free, a request is granted exactly if all
/// threads can finish in an order in which that unit is kept for the requesting
/// thread until its turn.
pub proof fn law_request_for_free_unit(process: Process, tid: int, rid: int)
    requires
        process.can_request(tid, rid),
        process.claims().available[rid] > 0,
    ensures
        process.grants(tid, rid) == (exists|order: Seq<int>| #[trigger]
            finishes_with_a_unit_kept(process.claims().requested(tid, rid), order, tid, rid)),
{
    let claims = process.claims().requested(tid, rid);
    let handed = claims.handed(tid, rid);
    if process.grants(tid, rid) {
        let order = choose|order: Seq<int>| #[trigger] handed.full_order(order) && handed.runs(order);
        assert(claims.full_order(order));
        lemma_handed_order(claims, tid, rid, order);
        assert(finishes_with_a_unit_kept(claims, order, tid, rid));
    }
    if exists|order: Seq<int>| #[trigger] finishes_with_a_unit_kept(claims, order, tid, rid) {
        let order = choose|order: Seq<int>| #[trigger]
            finishes_with_a_unit_kept(claims, order, tid, rid);
        lemma_handed_order(claims, tid, rid, order);
        assert(handed.full_order(order));
    }
}

/// Where no unit of the resource is free, a request is granted exactly if all
/// threads can finish with the requesting one waiting.
pub proof fn law_request_for_taken_resource(process: Process, tid: int, rid: int)
    requires
        process.can_request(tid, rid),
        process.claims().available[rid] == 0,
    ensures
        process.grants(tid, rid) == process.claims().requested(tid, rid).safe(),
{
}

/// A request that is granted leaves no deadlock: with the thread waiting for the
/// unit, all threads can still finish in some order.
pub proof fn law_granted_request_leaves_no_deadlock(
    before: Process,
    after: Process,
    tid: int,
    rid: int,
    take: SyncRequest,
)
    requires
        before.deadlock_detection_enabled,
        before.can_request(tid, rid),
        lock_outcome(before, after, tid, rid, take, Step::Perform(take)),
    ensures
        after.claims() == before.claims().requested(tid, rid),
        after.claims().safe(),
{
    let claims = before.claims().requested(tid, rid);
    lemma_claims_after_request(before, after, tid, rid);
    if before.claims().available[rid] > 0 {
        law_request_for_free_unit(before, tid, rid);
        let order = choose|order: Seq<int>| #[trigger]
            finishes_with_a_unit_kept(claims, order, tid, rid);
        assert(claims.full_order(order));
    }
}

/// A request that would leave the threads in a deadlock is refused, and nothing
/// changes.
pub proof fn law_deadlock_is_refused(
    before: Process,
    after: Process,
    tid: int,
    rid: int,
    take: SyncRequest,
    step: Step<SyncRequest>,
)
    requires
        before.deadlock_detection_enabled,
        before.can_request(tid, rid),
        lock_outcome(before, after, tid, rid, take, step),
        !before.claims().requested(tid, rid).safe(),
    ensures
        step == Step::<SyncRequest>::Return(DEADLOCK_RETURN),
        same_counts(after.allocation@, before.allocation@),
        same_counts(after.need@, before.need@),
{
    if before.grants(tid, rid) {
        law_granted_request_leaves_no_deadlock(before, after, tid, rid, take);
    }
}

/// After a granted request the tables stand for the claims with the request in.
proof fn lemma_claims_after_request(before: Process, after: Process, tid: int, rid: int)
    requires
        before.can_request(tid, rid),
        after == (Process { allocation: after.allocation, need: after.need, ..before }),
        after.allocation@ == before.held(),
        after.need@ == incremented(before.awaited(), tid, rid),
    ensures
        after.claims() == before.claims().requested(tid, rid),
{
    let threads = before.thread_count as nat;
    lemma_expanded_again(before.allocation@, threads, before.resources(), tid, rid, 0);
    lemma_expanded_again(
        before.need@,
        threads,
        before.resources(),
        tid,
        rid,
        before.awaited()[tid][rid] + 1,
    );
    assert(after.claims().available =~= before.claims().available);
}

/// Whether thread `tid` waits for nothing.
pub open spec fn waits_for_nothing(process: Process, tid: int) -> bool {
    forall|j: int| 0 <= j < process.resources() ==> #[trigger] process.awaited()[tid][j] == 0
}

/// Where all threads can finish, one that waits for nothing gets a free unit of
/// any resource.
pub proof fn law_free_unit_is_granted(process: Process, tid: int, rid: int)
    requires
        process.can_request(tid, rid),
        0 <= tid < process.thread_count,
        process.claims().available[rid] > 0,
        waits_for_nothing(process, tid),
        process.claims().safe(),
    ensures
        process.grants(tid, rid),
{
    let start = process.claims();
    let claims = start.requested(tid, rid);
    let handed = claims.handed(tid, rid);
    let earlier = choose|order: Seq<int>| #[trigger] start.full_order(order) && start.runs(order);
    assert(earlier.contains(tid));
    let at = choose|at: int| 0 <= at < earlier.len() && earlier[at] == tid;
    let rest = earlier.remove(at);
    let order = seq![tid] + rest;
    assert forall|k: int| 1 <= k < order.len() implies #[trigger] order[k] == earlier[if k - 1
        < at {
        k - 1
    } else {
        k
    }] by {}
    assert forall|i: int| 0 <= i < handed.threads implies #[trigger] order.contains(i) by {
        assert(earlier.contains(i));
        let q = choose|q: int| 0 <= q < earlier.len() && earlier[q] == i;
        if q == at {
            assert(order[0] == i);
        } else if q < at {
            assert(order[q + 1] == i);
        } else {
            assert(order[q] == i);
        }
    }
    assert(handed.full_order(order));
    assert forall|k: int| 0 <= k < order.len() implies handed.served_after(
        order.take(k),
        #[trigger] order[k],
    ) by {
        let done = order.take(k);
        lemma_order_front(handed, order, k);
        assert(claims.partial_order(done));
        assert forall|j: int| 0 <= j < handed.resources implies #[trigger] handed.need[order[k]][j]
            <= handed.free_after(done, j) by {
            assert(start.need[order[k]].len() >= start.resources);
            if k == 0 {
                assert(process.awaited()[tid][j] == 0);
            } else {
                let q = if k - 1 < at {
                    k - 1
                } else {
                    k
                };
                let before = earlier.take(q);
                assert(start.served_after(before, earlier[q]));
                assert(start.need[earlier[q]][j] <= start.free_after(before, j));
                lemma_order_front(start, earlier, q);
                assert(done[0] == tid);
                assert forall|p: int| 0 <= p < before.len() implies done.contains(
                    #[trigger] before[p],
                ) by {
                    if p < at {
                        assert(done[p + 1] == before[p]);
                    } else if p > at {
                        assert(done[p] == before[p]);
                    }
                }
                lemma_held_subset(start.allocation, before, done, j);
                lemma_free_after_handing(claims, tid, rid, done, j);
            }
        }
    }
    assert(handed.runs(order));
}

/// With deadlock detection on, a thread that waits for nothing gets a mutex that
/// no thread holds, if it is alone or all threads can finish.
pub proof fn law_unheld_mutex_is_granted(process: Process, tid: int, mutex_id: int)
    requires
        process.can_request(tid, mutex_id),
        0 <= tid < process.thread_count,
        0 <= mutex_id < process.mutex_list@.len(),
        column_sum(process.held(), mutex_id, process.thread_count as nat) == 0,
        waits_for_nothing(process, tid),
        process.thread_count == 1 || process.claims().safe(),
    ensures
        process.grants(tid, mutex_id),
{
    let claims = process.claims();
    if process.thread_count == 1 {
        let order = seq![0int];
        assert(order[0] == 0);
        assert(claims.full_order(order));
        assert forall|k: int| 0 <= k < order.len() implies claims.served_after(
            order.take(k),
            #[trigger] order[k],
        ) by {
            assert forall|j: int| 0 <= j < claims.resources implies #[trigger] claims.need[order[k]][j]
                <= claims.free_after(order.take(k), j) by {
                assert(process.awaited()[tid][j] == 0);
            }
        }
        assert(claims.runs(order));
    }
    law_free_unit_is_granted(process, tid, mutex_id);
}

/// Taking a free unit that was granted is what the check foresaw, so all threads
/// can still finish.
pub proof fn law_taken_free_unit_leaves_no_deadlock(
    start: Process,
    waiting: Process,
    holding: Process,
    tid: int,
    rid: int,
    take: SyncRequest,
)
    requires
        start.deadlock_detection_enabled,
        start.can_request(tid, rid),
        0 <= tid < start.thread_count,
        start.claims().available[rid] > 0,
        lock_outcome(start, waiting, tid, rid, take, Step::Perform(take)),
        taken_outcome(waiting, holding, tid, rid),
    ensures
        holding.claims() == start.claims().requested(tid, rid).handed(tid, rid),
        holding.claims().safe(),
{
    let threads = start.thread_count as nat;
    let resources = start.resources();
    let handed = start.claims().requested(tid, rid).handed(tid, rid);
    assert(waiting.row_widened(waiting.allocation@, tid) =~= start.held()) by {
        assert(padded(start.held()[tid], resources) =~= start.held()[tid]);
    }
    assert(waiting.row_widened(waiting.need@, tid) =~= waiting.need@) by {
        assert(padded(waiting.need@[tid], resources) =~= waiting.need@[tid]);
    }
    lemma_expanded_again(
        start.allocation@,
        threads,
        resources,
        tid,
        rid,
        start.held()[tid][rid] + 1,
    );
    lemma_expanded_again(start.need@, threads, resources, tid, rid, start.awaited()[tid][rid]);
    let back = with_cell(start.awaited(), tid, rid, start.awaited()[tid][rid]);
    assert(holding.need@ =~= back) by {
        assert forall|k: int| 0 <= k < back.len() implies #[trigger] holding.need@[k] =~= back[k] by {}
    }
    assert forall|j: int| 0 <= j < resources implies #[trigger] holding.claims().available[j]
        == handed.available[j] by {
        lemma_column_sum_incremented(start.held(), tid, rid, j, threads);
    }
    assert(holding.claims().available =~= handed.available);
}

/// Giving a unit back never makes a deadlock, as long as no more units of the
/// resource are on record than it has.
pub proof fn law_giving_back_makes_no_deadlock(
    before: Process,
    after: Process,
    tid: int,
    rid: int,
)
    requires
        0 <= tid < before.thread_count,
        0 <= rid < before.resources(),
        column_sum(before.held(), rid, before.thread_count as nat) <= before.capacity(rid),
        before.claims().safe(),
        given_outcome(before, after, tid, rid),
    ensures
        after.claims().safe(),
{
    let threads = before.thread_count as nat;
    let resources = before.resources();
    if before.deadlock_detection_enabled && count(before.allocation@, tid, rid) > 0
        && before.allocation@[tid].len() >= resources {
        let has = before.held()[tid][rid];
        let less = with_cell(before.held(), tid, rid, minus(has, 1));
        lemma_expanded_again(before.allocation@, threads, resources, tid, rid, minus(has, 1));
        assert(after.held() =~= less) by {
            assert forall|k: int| 0 <= k < less.len() implies #[trigger] after.held()[k] =~= less[k] by {}
        }
        assert(incremented(less, tid, rid) =~= before.held()) by {
            assert(incremented(less, tid, rid)[tid] =~= before.held()[tid]);
        }
        let order = choose|order: Seq<int>| #[trigger]
            before.claims().full_order(order) && before.claims().runs(order);
        assert(after.claims().full_order(order));
        assert forall|k: int| 0 <= k < order.len() implies after.claims().served_after(
            order.take(k),
            #[trigger] order[k],
        ) by {
            let done = order.take(k);
            lemma_order_front(before.claims(), order, k);
            assert(before.claims().served_after(done, order[k]));
            assert forall|j: int|
                0 <= j < resources implies #[trigger] after.claims().need[order[k]][j]
                <= after.claims().free_after(done, j) by {
                assert forall|p: int| 0 <= p < done.len() implies has_cell(
                    less,
                    #[trigger] done[p],
                    j,
                ) by {
                    assert(0 <= done[p] < threads);
                }
                lemma_held_incremented(less, tid, rid, done, j);
                lemma_column_sum_incremented(less, tid, rid, j, threads);
                assert(before.claims().need[order[k]][j] <= before.claims().free_after(done, j));
                assert(after.claims().available[j] == minus(
                    before.capacity(j),
                    column_sum(less, j, threads),
                ));
            }
        }
        assert(after.claims().runs(order));
    } else {
        assert(after.allocation@ =~= before.allocation@) by {
            if has_cell(before.allocation@, tid, rid) {
                assert(before.allocation@[tid].update(rid, before.allocation@[tid][rid])
                    =~= before.allocation@[tid]);
            }
        }
        assert(after.held() == before.held());
        assert(after.claims().available =~= before.claims().available);
    }
}

/// The count recorded for each semaphore is the one it was created with.
pub open spec fn counts_recorded(list: Seq<Option<Semaphore>>, counts: Seq<usize>) -> bool {
    &&& counts.len() == list.len()
    &&& forall|i: int|
        0 <= i < list.len() && #[trigger] list[i] is Some ==> counts[i] == list[i]->0.res_count
}

/// Creating a semaphore keeps the recorded counts in step with the semaphores.
pub proof fn law_semaphore_counts_stay_recorded(
    list: Seq<Option<Semaphore>>,
    counts: Seq<usize>,
    res_count: usize,
)
    requires
        counts_recorded(list, counts),
    ensures
        counts_recorded(placed(list, Semaphore { res_count }), counts_with(counts, list, res_count)),
{
    lemma_first_free(list);
}

/// No unit is lost: what is available and what is held add up to what a
/// resource has, or to what is held where more is on record than that.
pub proof fn law_units_add_up(process: Process, j: int)
    requires
        0 <= j < process.resources(),
    ensures
        process.claims().available[j] + column_sum(process.held(), j, process.thread_count as nat)
            == larger(
            process.capacity(j),
            column_sum(process.held(), j, process.thread_count as nat),
        ),
{
}

/// With nothing on record, every unit that a resource has is available.
pub proof fn law_nothing_held_leaves_all_available(process: Process, j: int)
    requires
        process.allocation@.len() == 0,
        0 <= j < process.resources(),
    ensures
        process.claims().available[j] == process.capacity(j),
{
    law_empty_column(process.held(), j, process.thread_count as nat);
}

} // verus!
