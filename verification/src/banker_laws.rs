//! What holds of the tables and of the banker's test as a whole.
use crate::banker::Claims;
use crate::banker::claims_of;
use crate::banker::held_by;
use crate::banker::lemma_held_bounded;
use crate::banker::lemma_held_push;
use crate::banker::lemma_held_subset;
use crate::matrix::Matrix;
use crate::matrix::column_sum;
use crate::matrix::count;
use crate::matrix::decremented;
use crate::matrix::expanded;
use crate::matrix::has_cell;
use crate::matrix::incremented;
use crate::matrix::padded;
use crate::matrix::with_cell;
use vstd::prelude::*;

verus! {

/// A table shows the counts in its rows, each where it stands.
pub proof fn law_table_shows_its_rows(table: Matrix, i: int, j: int)
    requires
        0 <= i < table.rows@.len(),
        0 <= j < table.rows@[i]@.len(),
    ensures
        table@.len() == table.rows@.len(),
        table@[i].len() == table.rows@[i]@.len(),
        table@[i][j] == table.rows@[i]@[j],
{
}

/// Expanding a table adds rows and columns up to the size asked for and no
/// further. A count that was there stays where it is, and every new one is zero.
pub proof fn law_expanding_keeps_the_counts(
    table: Seq<Seq<nat>>,
    threads: nat,
    resources: nat,
    i: int,
    j: int,
)
    ensures
        ({
            let wide = expanded(table, threads, resources);
            &&& wide.len() >= table.len() && wide.len() >= threads
            &&& wide.len() == table.len() || wide.len() == threads
            &&& 0 <= i < table.len() ==> wide[i].len() >= table[i].len()
            &&& 0 <= i < threads ==> wide[i].len() >= resources
            &&& 0 <= i < threads && wide[i].len() > resources ==> i < table.len() && wide[i].len()
                == table[i].len()
            &&& threads <= i < table.len() ==> wide[i] == table[i]
            &&& 0 <= i < table.len() && 0 <= j < table[i].len() ==> wide[i][j] == table[i][j]
            &&& 0 <= i < wide.len() && 0 <= j < wide[i].len() && (i >= table.len() || j
                >= table[i].len()) ==> wide[i][j] == 0
        }),
{
}

/// Padding a row keeps its counts and adds zeros up to the width asked for.
pub proof fn law_padding_keeps_the_counts(row: Seq<nat>, width: nat, j: int)
    ensures
        row.len() >= width ==> padded(row, width) == row,
        row.len() < width ==> padded(row, width).len() == width,
        0 <= j < row.len() ==> padded(row, width)[j] == row[j],
        row.len() <= j < width ==> padded(row, width)[j] == 0,
{
    if row.len() >= width {
        assert(padded(row, width) =~= row);
    }
}

/// A unit more or less in one cell changes that cell and no other, and an empty
/// cell stays empty when one is taken.
pub proof fn law_one_cell_changes(table: Seq<Seq<nat>>, i: int, j: int, v: nat, k: int, l: int)
    requires
        0 <= i < table.len(),
        0 <= j < table[i].len(),
        0 <= k < table.len(),
        0 <= l < table[k].len(),
    ensures
        with_cell(table, i, j, v).len() == table.len(),
        incremented(table, i, j).len() == table.len(),
        decremented(table, i, j).len() == table.len(),
        with_cell(table, i, j, v)[k].len() == table[k].len(),
        incremented(table, i, j)[k].len() == table[k].len(),
        decremented(table, i, j)[k].len() == table[k].len(),
        with_cell(table, i, j, v)[i][j] == v,
        incremented(table, i, j)[i][j] == table[i][j] + 1,
        table[i][j] > 0 ==> decremented(table, i, j)[i][j] + 1 == table[i][j],
        table[i][j] == 0 ==> decremented(table, i, j)[i][j] == 0,
        k != i || l != j ==> {
            &&& with_cell(table, i, j, v)[k][l] == table[k][l]
            &&& incremented(table, i, j)[k][l] == table[k][l]
            &&& decremented(table, i, j)[k][l] == table[k][l]
        },
{
}

/// The count of a cell is what it holds, and zero where there is no cell.
pub proof fn law_count_of_a_cell(table: Seq<Seq<nat>>, i: int, j: int)
    ensures
        0 <= i < table.len() && 0 <= j < table[i].len() ==> has_cell(table, i, j) && count(
            table,
            i,
            j,
        ) == table[i][j],
        i < 0 || j < 0 || i >= table.len() || j >= table[i].len() ==> !has_cell(table, i, j)
            && count(table, i, j) == 0,
{
}

/// A column without a unit sums up to nothing.
pub proof fn law_empty_column(table: Seq<Seq<nat>>, j: int, threads: nat)
    requires
        forall|i: int| 0 <= i < threads ==> #[trigger] table[i][j] == 0,
    ensures
        column_sum(table, j, threads) == 0,
    decreases threads,
{
    if threads > 0 {
        assert(table[threads - 1][j] == 0);
        law_empty_column(table, j, (threads - 1) as nat);
    }
}

/// A column's sum is a matter of that column in the rows counted, and of nothing
/// else.
pub proof fn law_column_sum_looks_at_its_column(
    a: Seq<Seq<nat>>,
    b: Seq<Seq<nat>>,
    j: int,
    threads: nat,
)
    requires
        forall|i: int| 0 <= i < threads ==> #[trigger] a[i][j] == b[i][j],
    ensures
        column_sum(a, j, threads) == column_sum(b, j, threads),
    decreases threads,
{
    if threads > 0 {
        assert(a[threads - 1][j] == b[threads - 1][j]);
        law_column_sum_looks_at_its_column(a, b, j, (threads - 1) as nat);
    }
}

/// One unit more with any of the threads is one more in the column's sum.
pub proof fn law_column_sum_counts_each_unit(
    a: Seq<Seq<nat>>,
    b: Seq<Seq<nat>>,
    i: int,
    j: int,
    threads: nat,
)
    requires
        0 <= i < threads,
        b[i][j] == a[i][j] + 1,
        forall|k: int| 0 <= k < threads && k != i ==> #[trigger] a[k][j] == b[k][j],
    ensures
        column_sum(b, j, threads) == column_sum(a, j, threads) + 1,
    decreases threads,
{
    if i == threads - 1 {
        law_column_sum_looks_at_its_column(a, b, j, (threads - 1) as nat);
    } else {
        assert(a[threads - 1][j] == b[threads - 1][j]);
        law_column_sum_counts_each_unit(a, b, i, j, (threads - 1) as nat);
    }
}

/// No thread holds more than all together.
pub proof fn law_column_sum_bounds_each_thread(table: Seq<Seq<nat>>, i: int, j: int, threads: nat)
    requires
        0 <= i < threads,
    ensures
        table[i][j] <= column_sum(table, j, threads),
    decreases threads,
{
    if i < threads - 1 {
        law_column_sum_bounds_each_thread(table, i, j, (threads - 1) as nat);
    }
}

/// The test judges the tables that it is given: their counts are the claims.
pub proof fn law_claims_are_the_tables(
    available: Seq<usize>,
    allocation: Matrix,
    need: Matrix,
    threads: usize,
    resources: usize,
    i: int,
    j: int,
)
    requires
        0 <= i < threads,
        0 <= j < resources,
        resources == available.len(),
        threads <= allocation.rows@.len(),
        threads <= need.rows@.len(),
        resources <= allocation.rows@[i]@.len(),
        resources <= need.rows@[i]@.len(),
    ensures
        ({
            let claims = claims_of(available, allocation, need, threads, resources);
            &&& claims.threads == threads
            &&& claims.resources == resources
            &&& claims.available.len() == resources
            &&& claims.available[j] == available[j]
            &&& claims.allocation[i][j] == allocation.rows@[i]@[j]
            &&& claims.need[i][j] == need.rows@[i]@[j]
        }),
{
}

/// One unit more is waited for, by the thread that asks and for the resource it
/// asks for. Nothing else about the claims changes.
pub proof fn law_request_adds_one_unit(claims: Claims, tid: int, rid: int, i: int, j: int)
    requires
        0 <= tid < claims.need.len(),
        0 <= rid < claims.need[tid].len(),
        0 <= i < claims.need.len(),
        0 <= j < claims.need[i].len(),
    ensures
        ({
            let asked = claims.requested(tid, rid);
            &&& asked.threads == claims.threads
            &&& asked.resources == claims.resources
            &&& asked.available == claims.available
            &&& asked.allocation == claims.allocation
            &&& asked.need[i][j] == claims.need[i][j] + (if i == tid && j == rid {
                1nat
            } else {
                0nat
            })
        }),
{
}

/// A free unit moves to the thread that is handed it, which waits for one less
/// if it waits for any. Where no unit is free nothing moves.
pub proof fn law_free_unit_moves(claims: Claims, tid: int, rid: int, i: int, j: int)
    requires
        0 <= rid < claims.available.len(),
        0 <= tid < claims.need.len(),
        0 <= tid < claims.allocation.len(),
        0 <= rid < claims.need[tid].len(),
        0 <= rid < claims.allocation[tid].len(),
        0 <= i < claims.need.len(),
        0 <= i < claims.allocation.len(),
        0 <= j < claims.available.len(),
        0 <= j < claims.need[i].len(),
        0 <= j < claims.allocation[i].len(),
    ensures
        ({
            let answered = claims.handed(tid, rid);
            let moved = i == tid && j == rid && claims.available[rid] > 0;
            &&& answered.threads == claims.threads
            &&& answered.resources == claims.resources
            &&& answered.available[j] == claims.available[j] - (if j == rid && claims.available[rid]
                > 0 {
                1int
            } else {
                0int
            })
            &&& answered.allocation[i][j] == claims.allocation[i][j] + (if moved {
                1nat
            } else {
                0nat
            })
            &&& answered.need[i][j] == claims.need[i][j] - (if moved && claims.need[i][j] > 0 {
                1int
            } else {
                0int
            })
        }),
{
}

/// A set of threads is in a deadlock if each of them waits for more of some
/// resource than is free and held outside the set, all together. Claims with such
/// a set are not safe. `others` is what the threads outside the set hold.
pub proof fn law_deadlocked_threads_are_unsafe(
    claims: Claims,
    stuck: Set<int>,
    others: Seq<Seq<nat>>,
    one: int,
)
    requires
        0 <= one < claims.threads,
        stuck.contains(one),
        forall|k: int, j: int|
            0 <= k < claims.threads && 0 <= j < claims.resources ==> #[trigger] others[k][j] == (
            if stuck.contains(k) {
                0
            } else {
                claims.allocation[k][j]
            }),
        forall|i: int|
            0 <= i < claims.threads && #[trigger] stuck.contains(i) ==> exists|j: int|
                0 <= j < claims.resources && #[trigger] claims.need[i][j] > claims.available[j]
                    + column_sum(others, j, claims.threads),
    ensures
        !claims.safe(),
{
    if claims.safe() {
        let order = choose|order: Seq<int>| #[trigger] claims.full_order(order) && claims.runs(order);
        assert(order.contains(one));
        let at = choose|at: int| 0 <= at < order.len() && order[at] == one;
        let k = lemma_first_in(order, stuck, at);
        let before = order.take(k);
        assert(claims.served_after(before, order[k]));
        let j = choose|j: int|
            0 <= j < claims.resources && #[trigger] claims.need[order[k]][j] > claims.available[j]
                + column_sum(others, j, claims.threads);
        assert(claims.need[order[k]][j] <= claims.free_after(before, j));
        let outside = Claims { allocation: others, ..claims };
        assert(outside.partial_order(before)) by {
            assert forall|p: int| 0 <= p < before.len() implies 0 <= #[trigger] before[p]
                < claims.threads by {
                assert(before[p] == order[p]);
            }
        }
        assert forall|p: int| 0 <= p < before.len() implies claims.allocation[#[trigger] before[p]][j]
            == others[before[p]][j] by {
            assert(before[p] == order[p]);
            assert(!stuck.contains(order[p]));
        }
        lemma_held_same(claims.allocation, others, before, j);
        lemma_held_bounded(outside, before, j);
    }
}

/// Claims that are not safe have a set of threads in a deadlock: each of them
/// waits for more of some resource than is free and held outside the set.
pub proof fn law_unsafe_claims_have_deadlocked_threads(claims: Claims) -> (found: (
    Set<int>,
    Seq<Seq<nat>>,
    int,
))
    requires
        !claims.safe(),
    ensures
        0 <= found.2 < claims.threads,
        found.0.contains(found.2),
        forall|k: int, j: int|
            0 <= k < claims.threads && 0 <= j < claims.resources ==> #[trigger] found.1[k][j] == (
            if found.0.contains(k) {
                0
            } else {
                claims.allocation[k][j]
            }),
        forall|i: int|
            0 <= i < claims.threads && #[trigger] found.0.contains(i) ==> exists|j: int|
                0 <= j < claims.resources && #[trigger] claims.need[i][j] > claims.available[j]
                    + column_sum(found.1, j, claims.threads),
{
    let done = lemma_run_on(claims, Seq::empty());
    let stuck = Set::new(|i: int| 0 <= i < claims.threads && !done.contains(i));
    let others = Seq::new(
        claims.threads,
        |k: int|
            if stuck.contains(k) {
                Seq::new(claims.resources, |j: int| 0nat)
            } else {
                claims.allocation[k]
            },
    );
    let one = if exists|i: int| 0 <= i < claims.threads && !#[trigger] done.contains(i) {
        choose|i: int| 0 <= i < claims.threads && !#[trigger] done.contains(i)
    } else {
        assert(claims.full_order(done));
        0
    };
    assert forall|i: int| 0 <= i < claims.threads && #[trigger] stuck.contains(i) implies exists|j: int|
        0 <= j < claims.resources && #[trigger] claims.need[i][j] > claims.available[j] + column_sum(
            others,
            j,
            claims.threads,
        ) by {
        assert(!done.contains(i));
        assert(!claims.served_after(done, i));
        let j = choose|j: int|
            0 <= j < claims.resources && #[trigger] claims.need[i][j] > claims.free_after(done, j);
        lemma_members(claims.allocation, others, done, j, claims.threads);
        lemma_held_subset(claims.allocation, members(done, claims.threads), done, j);
        assert(claims.need[i][j] > claims.available[j] + column_sum(others, j, claims.threads));
    }
    (stuck, others, one)
}

/// The first entry of `order` that is in `stuck`.
proof fn lemma_first_in(order: Seq<int>, stuck: Set<int>, at: int) -> (k: int)
    requires
        0 <= at < order.len(),
        stuck.contains(order[at]),
    ensures
        0 <= k < order.len(),
        stuck.contains(order[k]),
        forall|p: int| 0 <= p < k ==> !stuck.contains(#[trigger] order[p]),
    decreases at,
{
    if exists|p: int| 0 <= p < at && stuck.contains(#[trigger] order[p]) {
        let p = choose|p: int| 0 <= p < at && stuck.contains(#[trigger] order[p]);
        lemma_first_in(order, stuck, p)
    } else {
        at
    }
}

/// A group holds the same in two tables that agree on its threads.
proof fn lemma_held_same(a: Seq<Seq<nat>>, b: Seq<Seq<nat>>, group: Seq<int>, j: int)
    requires
        forall|p: int| 0 <= p < group.len() ==> a[#[trigger] group[p]][j] == b[group[p]][j],
    ensures
        held_by(a, group, j) == held_by(b, group, j),
    decreases group.len(),
{
    if group.len() > 0 {
        let rest = group.drop_last();
        assert forall|p: int| 0 <= p < rest.len() implies a[#[trigger] rest[p]][j] == b[rest[p]][j] by {
            assert(rest[p] == group[p]);
        }
        lemma_held_same(a, b, rest, j);
        assert(a[group[group.len() - 1]][j] == b[group[group.len() - 1]][j]);
    }
}

/// The threads below `n` that `done` names, by number.
spec fn members(done: Seq<int>, n: nat) -> Seq<int>
    decreases n,
{
    if n == 0 {
        Seq::empty()
    } else if done.contains(n - 1) {
        members(done, (n - 1) as nat).push(n - 1)
    } else {
        members(done, (n - 1) as nat)
    }
}

/// What the threads in `done` hold is what the table holds with all others out.
proof fn lemma_members(
    table: Seq<Seq<nat>>,
    masked: Seq<Seq<nat>>,
    done: Seq<int>,
    j: int,
    n: nat,
)
    requires
        forall|k: int|
            0 <= k < n ==> #[trigger] masked[k][j] == (if done.contains(k) {
                table[k][j]
            } else {
                0
            }),
    ensures
        members(done, n).no_duplicates(),
        forall|p: int|
            0 <= p < members(done, n).len() ==> 0 <= #[trigger] members(done, n)[p] < n
                && done.contains(members(done, n)[p]),
        column_sum(masked, j, n) == held_by(table, members(done, n), j),
    decreases n,
{
    if n > 0 {
        lemma_members(table, masked, done, j, (n - 1) as nat);
        assert(masked[n - 1][j] == (if done.contains(n - 1) {
            table[n - 1][j]
        } else {
            0
        }));
        if done.contains(n - 1) {
            lemma_held_push(table, members(done, (n - 1) as nat), n - 1, j);
        }
    }
}

/// What a group holds in a table of ones is how many threads it has.
proof fn lemma_held_ones(ones: Seq<Seq<nat>>, group: Seq<int>)
    requires
        forall|p: int| 0 <= p < group.len() ==> ones[#[trigger] group[p]][0] == 1,
    ensures
        held_by(ones, group, 0) == group.len(),
    decreases group.len(),
{
    if group.len() > 0 {
        let rest = group.drop_last();
        assert forall|p: int| 0 <= p < rest.len() implies ones[#[trigger] rest[p]][0] == 1 by {
            assert(rest[p] == group[p]);
        }
        lemma_held_ones(ones, rest);
        assert(ones[group[group.len() - 1]][0] == 1);
    }
}

/// A column of ones sums up to the number of its rows.
proof fn lemma_column_of_ones(ones: Seq<Seq<nat>>, threads: nat)
    requires
        forall|i: int| 0 <= i < threads ==> #[trigger] ones[i][0] == 1,
    ensures
        column_sum(ones, 0, threads) == threads,
    decreases threads,
{
    if threads > 0 {
        assert(ones[threads - 1][0] == 1);
        lemma_column_of_ones(ones, (threads - 1) as nat);
    }
}

/// An order names no more threads than there are.
proof fn lemma_order_length(claims: Claims, order: Seq<int>)
    requires
        claims.partial_order(order),
    ensures
        order.len() <= claims.threads,
{
    let ones = Seq::new(claims.threads, |i: int| seq![1nat]);
    assert forall|p: int| 0 <= p < order.len() implies ones[#[trigger] order[p]][0] == 1 by {}
    lemma_held_ones(ones, order);
    lemma_column_of_ones(ones, claims.threads);
    lemma_held_bounded(Claims { allocation: ones, ..claims }, order, 0);
}

/// Threads can go on finishing until no further one can.
proof fn lemma_run_on(claims: Claims, order: Seq<int>) -> (done: Seq<int>)
    requires
        claims.partial_order(order),
        claims.runs(order),
    ensures
        claims.partial_order(done),
        claims.runs(done),
        forall|i: int|
            0 <= i < claims.threads && !#[trigger] done.contains(i) ==> !claims.served_after(done, i),
    decreases claims.threads - order.len(),
{
    if exists|i: int|
        0 <= i < claims.threads && !#[trigger] order.contains(i) && claims.served_after(order, i) {
        let i = choose|i: int|
            0 <= i < claims.threads && !#[trigger] order.contains(i) && claims.served_after(order, i);
        let next = order.push(i);
        assert(claims.partial_order(next));
        assert forall|k: int| 0 <= k < next.len() implies claims.served_after(
            next.take(k),
            #[trigger] next[k],
        ) by {
            assert(next.take(k) =~= order.take(k));
            if k == order.len() {
                assert(order.take(k) =~= order);
            } else {
                assert(order[k] == next[k]);
            }
        }
        lemma_order_length(claims, next);
        lemma_run_on(claims, next)
    } else {
        order
    }
}

} // verus!
