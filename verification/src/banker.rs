//! The banker's safety test.
//!
//! The mathematical side comes first: what it means that threads which hold and
//! wait for resources can all finish. The executable test follows.
use crate::matrix::Matrix;
use crate::matrix::column_sum;
use crate::matrix::decremented;
use crate::matrix::incremented;
use crate::matrix::minus;
use crate::matrix::row_of;
use vstd::prelude::*;

verus! {

/// What the threads listed in `group` hold in column `j`, all together.
pub open spec fn held_by(table: Seq<Seq<nat>>, group: Seq<int>, j: int) -> nat
    decreases group.len(),
{
    if group.len() == 0 {
        0
    } else {
        held_by(table, group.drop_last(), j) + table[group.last()][j]
    }
}

/// Who holds what, who waits for what, and what is free.
pub struct Claims {
    /// Free units of each resource.
    pub available: Seq<nat>,
    /// Units that each thread holds.
    pub allocation: Seq<Seq<nat>>,
    /// Units that each thread waits for.
    pub need: Seq<Seq<nat>>,
    /// Number of threads.
    pub threads: nat,
    /// Number of resources.
    pub resources: nat,
}

impl Claims {
    /// Free units of resource `j` once the threads in `done` have finished and
    /// given back what they held.
    pub open spec fn free_after(self, done: Seq<int>, j: int) -> nat {
        self.available[j] + held_by(self.allocation, done, j)
    }

    /// Whether thread `i` gets all it waits for once `done` have finished.
    pub open spec fn served_after(self, done: Seq<int>, i: int) -> bool {
        forall|j: int| 0 <= j < self.resources ==> #[trigger] self.need[i][j] <= self.free_after(done, j)
    }

    /// Whether the threads of `order` can finish one after the other.
    pub open spec fn runs(self, order: Seq<int>) -> bool {
        forall|k: int|
            0 <= k < order.len() ==> self.served_after(order.take(k), #[trigger] order[k])
    }

    /// Whether `order` names threads, none of them twice.
    pub open spec fn partial_order(self, order: Seq<int>) -> bool {
        &&& order.no_duplicates()
        &&& forall|k: int| 0 <= k < order.len() ==> 0 <= #[trigger] order[k] < self.threads
    }

    /// Whether `order` names every thread once.
    pub open spec fn full_order(self, order: Seq<int>) -> bool {
        &&& self.partial_order(order)
        &&& forall|i: int| 0 <= i < self.threads ==> #[trigger] order.contains(i)
    }

    /// The claims are safe: there is an order in which all threads can finish.
    pub open spec fn safe(self) -> bool {
        exists|order: Seq<int>| #[trigger] self.full_order(order) && self.runs(order)
    }

    /// The same claims, with thread `tid` waiting for one more unit of `rid`.
    pub open spec fn requested(self, tid: int, rid: int) -> Claims {
        Claims { need: incremented(self.need, tid, rid), ..self }
    }

    /// The claims once a request of thread `tid` for a unit of `rid` has been
    /// answered: where a unit is free, the thread gets it and waits for one less;
    /// where none is, the thread goes on waiting.
    pub open spec fn handed(self, tid: int, rid: int) -> Claims {
        if self.available[rid] > 0 {
            Claims {
                available: self.available.update(rid, minus(self.available[rid], 1)),
                allocation: incremented(self.allocation, tid, rid),
                need: decremented(self.need, tid, rid),
                ..self
            }
        } else {
            self
        }
    }

    /// The tables are large enough for the threads and resources counted.
    pub open spec fn well_formed(self) -> bool {
        &&& self.available.len() == self.resources
        &&& self.allocation.len() >= self.threads
        &&& self.need.len() >= self.threads
        &&& forall|i: int|
            0 <= i < self.threads ==> (#[trigger] self.allocation[i]).len() >= self.resources
        &&& forall|i: int| 0 <= i < self.threads ==> (#[trigger] self.need[i]).len() >= self.resources
    }

    /// No resource has more units, free and held, than a machine word counts.
    pub open spec fn countable(self) -> bool {
        forall|j: int|
            0 <= j < self.resources ==> #[trigger] self.available[j] + column_sum(
                self.allocation,
                j,
                self.threads,
            ) <= usize::MAX
    }
}

/// One more thread in a group adds what that thread holds.
pub proof fn lemma_held_push(table: Seq<Seq<nat>>, group: Seq<int>, i: int, j: int)
    ensures
        held_by(table, group.push(i), j) == held_by(table, group, j) + table[i][j],
{
    assert(group.push(i).drop_last() =~= group);
}

/// One thread less in a group takes away what that thread holds.
proof fn lemma_held_remove(table: Seq<Seq<nat>>, group: Seq<int>, k: int, j: int)
    requires
        0 <= k < group.len(),
    ensures
        held_by(table, group, j) == held_by(table, group.remove(k), j) + table[group[k]][j],
    decreases group.len(),
{
    if k == group.len() - 1 {
        assert(group.remove(k) =~= group.drop_last());
    } else {
        lemma_held_remove(table, group.drop_last(), k, j);
        assert(group.remove(k).drop_last() =~= group.drop_last().remove(k));
        assert(group.remove(k).last() == group.last());
    }
}

/// A group holds no more than one that it is part of.
pub proof fn lemma_held_subset(table: Seq<Seq<nat>>, part: Seq<int>, whole: Seq<int>, j: int)
    requires
        part.no_duplicates(),
        forall|k: int| 0 <= k < part.len() ==> whole.contains(#[trigger] part[k]),
    ensures
        held_by(table, part, j) <= held_by(table, whole, j),
    decreases part.len(),
{
    if part.len() > 0 {
        let x = part.last();
        assert(whole.contains(part[part.len() - 1]));
        let at = choose|at: int| 0 <= at < whole.len() && whole[at] == x;
        let rest = whole.remove(at);
        assert forall|k: int| 0 <= k < part.drop_last().len() implies rest.contains(
            #[trigger] part.drop_last()[k],
        ) by {
            assert(whole.contains(part[k]));
            let w = choose|w: int| 0 <= w < whole.len() && whole[w] == part[k];
            assert(w != at);
            if w < at {
                assert(rest[w] == part[k]);
            } else {
                assert(rest[w - 1] == part[k]);
            }
        }
        lemma_held_subset(table, part.drop_last(), rest, j);
        lemma_held_remove(table, whole, at, j);
    }
}

/// The first `threads` threads together hold what the column sums up to.
proof fn lemma_held_by_all(table: Seq<Seq<nat>>, j: int, threads: nat)
    ensures
        held_by(table, Seq::new(threads, |k: int| k), j) == column_sum(table, j, threads),
    decreases threads,
{
    let all = Seq::new(threads, |k: int| k);
    if threads > 0 {
        lemma_held_by_all(table, j, (threads - 1) as nat);
        assert(all.drop_last() =~= Seq::new((threads - 1) as nat, |k: int| k));
    }
}

/// Threads in a partial order hold no more than all threads together.
pub proof fn lemma_held_bounded(claims: Claims, order: Seq<int>, j: int)
    requires
        claims.partial_order(order),
    ensures
        held_by(claims.allocation, order, j) <= column_sum(claims.allocation, j, claims.threads),
{
    let all = Seq::new(claims.threads, |k: int| k);
    assert forall|k: int| 0 <= k < order.len() implies all.contains(#[trigger] order[k]) by {
        assert(all[order[k]] == order[k]);
    }
    lemma_held_subset(claims.allocation, order, all, j);
    lemma_held_by_all(claims.allocation, j, claims.threads);
}

/// Where the threads in `done` have finished and no other can, and another is
/// left, no order lets all threads finish.
proof fn lemma_stuck_is_unsafe(claims: Claims, done: Seq<int>, left: int)
    requires
        0 <= left < claims.threads,
        !done.contains(left),
        forall|i: int|
            0 <= i < claims.threads && !#[trigger] done.contains(i) ==> !claims.served_after(done, i),
    ensures
        !claims.safe(),
{
    if claims.safe() {
        let order = choose|order: Seq<int>| #[trigger] claims.full_order(order) && claims.runs(order);
        assert(order.contains(left));
        let at = choose|at: int| 0 <= at < order.len() && order[at] == left;
        lemma_first_outside(order, done, at);
        let k = choose|k: int|
            0 <= k < order.len() && !done.contains(#[trigger] order[k]) && forall|p: int|
                0 <= p < k ==> done.contains(#[trigger] order[p]);
        let before = order.take(k);
        assert(claims.served_after(before, order[k]));
        assert forall|j: int| 0 <= j < claims.resources implies #[trigger] claims.need[order[k]][j]
            <= claims.free_after(done, j) by {
            assert(before.no_duplicates());
            assert forall|p: int| 0 <= p < before.len() implies done.contains(
                #[trigger] before[p],
            ) by {
                assert(done.contains(order[p]));
            }
            lemma_held_subset(claims.allocation, before, done, j);
        }
        assert(claims.served_after(done, order[k]));
    }
}

/// Some entry of `order` is the first that `done` does not contain.
proof fn lemma_first_outside(order: Seq<int>, done: Seq<int>, at: int)
    requires
        0 <= at < order.len(),
        !done.contains(order[at]),
    ensures
        exists|k: int|
            0 <= k < order.len() && !done.contains(#[trigger] order[k]) && forall|p: int|
                0 <= p < k ==> done.contains(#[trigger] order[p]),
    decreases at,
{
    if exists|p: int| 0 <= p < at && !done.contains(#[trigger] order[p]) {
        let p = choose|p: int| 0 <= p < at && !done.contains(#[trigger] order[p]);
        lemma_first_outside(order, done, p);
    }
}

/// The claims that executable tables stand for.
pub open spec fn claims_of(
    available: Seq<usize>,
    allocation: Matrix,
    need: Matrix,
    threads: usize,
    resources: usize,
) -> Claims {
    Claims {
        available: row_of(available),
        allocation: allocation@,
        need: need@,
        threads: threads as nat,
        resources: resources as nat,
    }
}

/// What holds while the banker's algorithm works: `order` has finished so far,
/// `finish` marks its threads, and `work` is what is free by now.
spec fn progress(claims: Claims, order: Seq<int>, work: Seq<usize>, finish: Seq<bool>) -> bool {
    &&& claims.partial_order(order)
    &&& claims.runs(order)
    &&& work.len() == claims.resources
    &&& finish.len() == claims.threads
    &&& forall|j: int| 0 <= j < claims.resources ==> #[trigger] work[j] == claims.free_after(order, j)
    &&& forall|i: int| 0 <= i < claims.threads ==> #[trigger] finish[i] == order.contains(i)
}

/// How many entries of `finish` are still false.
spec fn unfinished(finish: Seq<bool>) -> nat
    decreases finish.len(),
{
    if finish.len() == 0 {
        0
    } else {
        unfinished(finish.drop_last()) + if finish.last() {
            0nat
        } else {
            1nat
        }
    }
}

/// Finishing one more thread leaves one less unfinished.
proof fn lemma_unfinished_update(finish: Seq<bool>, i: int)
    requires
        0 <= i < finish.len(),
        !finish[i],
    ensures
        unfinished(finish.update(i, true)) + 1 == unfinished(finish),
    decreases finish.len(),
{
    if i == finish.len() - 1 {
        assert(finish.update(i, true).drop_last() =~= finish.drop_last());
    } else {
        lemma_unfinished_update(finish.drop_last(), i);
        assert(finish.update(i, true).drop_last() =~= finish.drop_last().update(i, true));
    }
}

/// Whether the first `resources` entries of `need` are all covered by `work`.
fn covers(work: &Vec<usize>, need: &Vec<usize>, resources: usize) -> (covered: bool)
    requires
        resources <= work@.len(),
        resources <= need@.len(),
    ensures
        covered == (forall|j: int| 0 <= j < resources ==> #[trigger] need@[j] <= work@[j]),
{
    let mut j: usize = 0;
    while j < resources
        invariant
            j <= resources,
            resources <= work@.len(),
            resources <= need@.len(),
            forall|k: int| 0 <= k < j ==> #[trigger] need@[k] <= work@[k],
        decreases resources - j,
    {
        if need[j] > work[j] {
            return false;
        }
        j = j + 1;
    }
    true
}

/// Adds the first `resources` entries of `held` to `work`.
fn give_back(work: &mut Vec<usize>, held: &Vec<usize>, resources: usize)
    requires
        resources <= old(work)@.len(),
        resources <= held@.len(),
        forall|j: int| 0 <= j < resources ==> #[trigger] old(work)@[j] + held@[j] <= usize::MAX,
    ensures
        final(work)@.len() == old(work)@.len(),
        forall|j: int|
            0 <= j < resources ==> #[trigger] final(work)@[j] == old(work)@[j] + held@[j],
        forall|j: int|
            resources <= j < old(work)@.len() ==> #[trigger] final(work)@[j] == old(work)@[j],
{
    let mut j: usize = 0;
    while j < resources
        invariant
            j <= resources,
            resources <= work@.len(),
            resources <= held@.len(),
            work@.len() == old(work)@.len(),
            forall|k: int| 0 <= k < resources ==> #[trigger] old(work)@[k] + held@[k] <= usize::MAX,
            forall|k: int| 0 <= k < j ==> #[trigger] work@[k] == old(work)@[k] + held@[k],
            forall|k: int| j <= k < work@.len() ==> #[trigger] work@[k] == old(work)@[k],
        decreases resources - j,
    {
        let sum: usize = work[j] + held[j];
        work.set(j, sum);
        j = j + 1;
    }
}

/// The banker's algorithm: whether the first `threads` threads, holding
/// `allocation` and waiting for `need`, can all finish in some order when
/// `available` is free at first.
pub fn all_can_finish(
    available: &Vec<usize>,
    allocation: &Matrix,
    need: &Matrix,
    threads: usize,
    resources: usize,
) -> (safe: bool)
    requires
        claims_of(available@, *allocation, *need, threads, resources).well_formed(),
        claims_of(available@, *allocation, *need, threads, resources).countable(),
    ensures
        safe == claims_of(available@, *allocation, *need, threads, resources).safe(),
{
    let ghost claims = claims_of(available@, *allocation, *need, threads, resources);
    let mut work: Vec<usize> = available.clone();
    let mut finish: Vec<bool> = Vec::new();
    finish.resize(threads, false);
    let ghost mut order: Seq<int> = Seq::empty();
    let mut found: bool = true;
    while found
        invariant
            claims == claims_of(available@, *allocation, *need, threads, resources),
            claims.well_formed(),
            claims.countable(),
            progress(claims, order, work@, finish@),
            !found ==> forall|i: int|
                0 <= i < threads && !#[trigger] finish@[i] ==> !claims.served_after(order, i),
        decreases unfinished(finish@), (if found { 1nat } else { 0nat }),
    {
        found = false;
        let ghost start = finish@;
        let mut i: usize = 0;
        while i < threads
            invariant
                i <= threads,
                claims == claims_of(available@, *allocation, *need, threads, resources),
                claims.well_formed(),
                claims.countable(),
                progress(claims, order, work@, finish@),
                !found ==> finish@ == start,
                found ==> unfinished(finish@) < unfinished(start),
                !found ==> forall|k: int|
                    0 <= k < i && !#[trigger] finish@[k] ==> !claims.served_after(order, k),
            decreases threads - i,
        {
            if !finish[i] {
                assert(claims.need[i as int].len() >= resources);
                let satisfied: bool = covers(&work, &need.rows[i], resources);
                assert(satisfied == claims.served_after(order, i as int)) by {
                    if satisfied {
                        assert forall|j: int|
                            0 <= j < claims.resources implies #[trigger] claims.need[i as int][j]
                            <= claims.free_after(order, j) by {
                            assert(need.rows@[i as int]@[j] <= work@[j]);
                        }
                    } else {
                        let j = choose|j: int|
                            0 <= j < resources && #[trigger] need.rows@[i as int]@[j] > work@[j];
                        assert(claims.need[i as int][j] > claims.free_after(order, j));
                    }
                }
                if satisfied {
                    let ghost next = order.push(i as int);
                    proof {
                        assert(!order.contains(i as int));
                        assert forall|j: int| 0 <= j < resources implies #[trigger] work@[j]
                            + allocation.rows@[i as int]@[j] == claims.free_after(next, j)
                            && claims.free_after(next, j) <= usize::MAX by {
                            lemma_held_push(claims.allocation, order, i as int, j);
                            lemma_held_bounded(claims, next, j);
                            assert(claims.allocation[i as int][j] == allocation.rows@[i as int]@[j]);
                            assert(claims.available[j] + column_sum(
                                claims.allocation,
                                j,
                                claims.threads,
                            ) <= usize::MAX);
                        }
                    }
                    give_back(&mut work, &allocation.rows[i], resources);
                    proof {
                        lemma_unfinished_update(finish@, i as int);
                        assert(claims.runs(next)) by {
                            assert forall|k: int| 0 <= k < next.len() implies claims.served_after(
                                next.take(k),
                                #[trigger] next[k],
                            ) by {
                                assert(next.take(k) =~= order.take(k));
                                if k == order.len() {
                                    assert(order.take(k) =~= order);
                                } else {
                                    assert(order[k] == next[k]);
                                }
                            }
                        }
                        assert forall|p: int| 0 <= p < threads implies next.contains(p) == (
                        #[trigger] finish@.update(i as int, true)[p]) by {
                            if p == i {
                                assert(next[order.len() as int] == p);
                            } else if order.contains(p) {
                                let w = choose|w: int| 0 <= w < order.len() && order[w] == p;
                                assert(next[w] == p);
                            }
                            assert(finish@[p] == order.contains(p));
                        }
                        order = next;
                    }
                    finish.set(i, true);
                    found = true;
                }
            }
            i = i + 1;
        }
    }
    let mut all: bool = true;
    let mut i: usize = 0;
    while i < threads
        invariant
            i <= threads,
            threads == finish@.len(),
            all == (forall|k: int| 0 <= k < i ==> #[trigger] finish@[k]),
        decreases threads - i,
    {
        if !finish[i] {
            all = false;
        }
        i = i + 1;
    }
    proof {
        if all {
            assert forall|p: int| 0 <= p < claims.threads implies #[trigger] order.contains(p) by {
                assert(finish@[p]);
            }
            assert(claims.full_order(order));
        } else {
            let left = choose|k: int| 0 <= k < threads && !#[trigger] finish@[k];
            assert forall|p: int|
                0 <= p < claims.threads && !#[trigger] order.contains(p) implies !claims.served_after(
                order,
                p,
            ) by {
                assert(!finish@[p]);
            }
            lemma_stuck_is_unsafe(claims, order, left);
        }
    }
    all
}

} // verus!
