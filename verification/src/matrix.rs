//! Tables of counts: one row per thread, one column per resource.
//!
//! A table starts empty and grows on demand, so a row may be shorter than the
//! number of resources, and a thread may have no row yet.
use vstd::prelude::*;

verus! {

/// The larger of two numbers.
pub open spec fn larger(a: nat, b: nat) -> nat {
    if a < b {
        b
    } else {
        a
    }
}

/// `a - b`, or zero where that would be negative.
pub open spec fn minus(a: nat, b: nat) -> nat {
    if a < b {
        0
    } else {
        (a - b) as nat
    }
}

/// `row`, filled up with zeros to at least `width` entries.
pub open spec fn padded(row: Seq<nat>, width: nat) -> Seq<nat> {
    Seq::new(
        larger(row.len(), width),
        |j: int|
            if j < row.len() {
                row[j]
            } else {
                0
            },
    )
}

/// `table` with at least `threads` rows, of which the first `threads` have at
/// least `resources` columns. New cells are zero; no old cell changes.
pub open spec fn expanded(table: Seq<Seq<nat>>, threads: nat, resources: nat) -> Seq<Seq<nat>> {
    Seq::new(
        larger(table.len(), threads),
        |i: int|
            if i >= threads {
                table[i]
            } else if i < table.len() {
                padded(table[i], resources)
            } else {
                padded(Seq::empty(), resources)
            },
    )
}

/// Whether `table` has a cell in row `i`, column `j`.
pub open spec fn has_cell(table: Seq<Seq<nat>>, i: int, j: int) -> bool {
    0 <= i < table.len() && 0 <= j < table[i].len()
}

/// The count in row `i`, column `j`; zero where the table has no such cell.
pub open spec fn count(table: Seq<Seq<nat>>, i: int, j: int) -> nat {
    if has_cell(table, i, j) {
        table[i][j]
    } else {
        0
    }
}

/// `table` with `v` in row `i`, column `j`.
pub open spec fn with_cell(table: Seq<Seq<nat>>, i: int, j: int, v: nat) -> Seq<Seq<nat>> {
    table.update(i, table[i].update(j, v))
}

/// `table` with one more in row `i`, column `j`.
pub open spec fn incremented(table: Seq<Seq<nat>>, i: int, j: int) -> Seq<Seq<nat>> {
    with_cell(table, i, j, table[i][j] + 1)
}

/// `table` with one less in row `i`, column `j`, where there is one to take.
pub open spec fn decremented(table: Seq<Seq<nat>>, i: int, j: int) -> Seq<Seq<nat>> {
    with_cell(table, i, j, minus(table[i][j], 1))
}

/// What the first `threads` rows hold in column `j`, all together.
pub open spec fn column_sum(table: Seq<Seq<nat>>, j: int, threads: nat) -> nat
    decreases threads,
{
    if threads == 0 {
        0
    } else {
        column_sum(table, j, (threads - 1) as nat) + table[threads - 1][j]
    }
}

/// The counts of the first `threads` rows in column `j`, all together, with
/// nothing for a cell that is not there.
pub open spec fn count_sum(table: Seq<Seq<nat>>, j: int, threads: nat) -> nat
    decreases threads,
{
    if threads == 0 {
        0
    } else {
        count_sum(table, j, (threads - 1) as nat) + count(table, threads - 1, j)
    }
}

/// The numbers in a row of machine words.
pub open spec fn row_of(row: Seq<usize>) -> Seq<nat> {
    Seq::new(row.len(), |j: int| row[j] as nat)
}

/// A table of counts.
#[derive(Clone, Debug)]
pub struct Matrix {
    /// The rows, each as long as it has grown so far.
    pub rows: Vec<Vec<usize>>,
}

impl View for Matrix {
    type V = Seq<Seq<nat>>;

    open spec fn view(&self) -> Seq<Seq<nat>> {
        Seq::new(self.rows@.len(), |i: int| row_of(self.rows@[i]@))
    }
}

impl Matrix {
    /// A table without rows.
    pub fn new() -> (table: Self)
        ensures
            table@ == Seq::<Seq<nat>>::empty(),
    {
        let table = Matrix { rows: Vec::new() };
        assert(table@ =~= Seq::<Seq<nat>>::empty());
        table
    }

    /// Drops every row.
    pub fn clear(&mut self)
        ensures
            final(self)@ == Seq::<Seq<nat>>::empty(),
    {
        self.rows.clear();
        assert(self@ =~= Seq::<Seq<nat>>::empty());
    }

    /// The count in row `i`, column `j`.
    pub fn get(&self, i: usize, j: usize) -> (v: usize)
        requires
            has_cell(self@, i as int, j as int),
        ensures
            v == self@[i as int][j as int],
    {
        self.rows[i][j]
    }

    /// The count in row `i`, column `j`; zero where the table has no such cell.
    pub fn count_at(&self, i: usize, j: usize) -> (v: usize)
        ensures
            v == count(self@, i as int, j as int),
    {
        if i < self.rows.len() && j < self.rows[i].len() {
            self.rows[i][j]
        } else {
            0
        }
    }

    /// Whether the table has, once expanded, a cell in row `i`, column `j`.
    pub fn will_have_cell(&self, threads: usize, resources: usize, i: usize, j: usize) -> (has: bool)
        ensures
            has == has_cell(
                expanded(self@, threads as nat, resources as nat),
                i as int,
                j as int,
            ),
    {
        if i < threads && j < resources {
            true
        } else {
            i < self.rows.len() && j < self.rows[i].len()
        }
    }

    /// Whether what the first `threads` rows hold in column `j`, and `extra`
    /// units more, can be counted in a machine word.
    pub fn column_fits(&self, j: usize, threads: usize, extra: usize) -> (fits: bool)
        ensures
            fits == (count_sum(self@, j as int, threads as nat) + extra <= usize::MAX),
    {
        let mut total: usize = extra;
        let mut i: usize = 0;
        while i < threads
            invariant
                i <= threads,
                total == count_sum(self@, j as int, i as nat) + extra,
            decreases threads - i,
        {
            proof {
                lemma_count_sum_grows(self@, j as int, (i + 1) as nat, threads as nat);
            }
            let cell: usize = self.count_at(i, j);
            if cell > usize::MAX - total {
                return false;
            }
            total = total + cell;
            i = i + 1;
        }
        true
    }

    /// Puts `v` in row `i`, column `j`.
    pub fn set(&mut self, i: usize, j: usize, v: usize)
        requires
            has_cell(old(self)@, i as int, j as int),
        ensures
            final(self)@ == with_cell(old(self)@, i as int, j as int, v as nat),
    {
        self.rows[i][j] = v;
        assert(self@ =~= with_cell(old(self)@, i as int, j as int, v as nat)) by {
            assert forall|k: int| 0 <= k < self@.len() implies #[trigger] self@[k]
                =~= with_cell(old(self)@, i as int, j as int, v as nat)[k] by {}
        }
    }

    /// Fills row `i` up with zeros to at least `resources` columns.
    pub fn pad_row(&mut self, i: usize, resources: usize)
        requires
            i < old(self)@.len(),
        ensures
            final(self)@ == old(self)@.update(
                i as int,
                padded(old(self)@[i as int], resources as nat),
            ),
    {
        if self.rows[i].len() < resources {
            self.rows[i].resize(resources, 0);
        }
        assert(self@ =~= old(self)@.update(i as int, padded(old(self)@[i as int], resources as nat)))
            by {
            assert forall|k: int| 0 <= k < self@.len() implies #[trigger] self@[k]
                =~= old(self)@.update(i as int, padded(old(self)@[i as int], resources as nat))[k] by {}
        }
    }

    /// Makes room for `threads` rows of `resources` columns each.
    pub fn expand(&mut self, threads: usize, resources: usize)
        ensures
            final(self)@ == expanded(old(self)@, threads as nat, resources as nat),
    {
        let ghost before = self@;
        while self.rows.len() < threads
            invariant
                before.len() <= self@.len() <= larger(before.len(), threads as nat),
                forall|k: int| 0 <= k < before.len() ==> #[trigger] self@[k] == before[k],
                forall|k: int| before.len() <= k < self@.len() ==> (#[trigger] self@[k]).len() == 0,
            decreases threads - self.rows.len(),
        {
            let ghost earlier = self@;
            self.rows.push(Vec::new());
            assert(forall|k: int| 0 <= k < earlier.len() ==> #[trigger] self@[k] == earlier[k]);
        }
        let ghost grown = self@;
        let mut i: usize = 0;
        while i < threads
            invariant
                i <= threads,
                self@.len() == grown.len(),
                grown.len() == larger(before.len(), threads as nat),
                forall|k: int| 0 <= k < i ==> #[trigger] self@[k] == padded(grown[k], resources as nat),
                forall|k: int| i <= k < grown.len() ==> #[trigger] self@[k] == grown[k],
            decreases threads - i,
        {
            self.pad_row(i, resources);
            i = i + 1;
        }
        assert(self@ =~= expanded(before, threads as nat, resources as nat)) by {
            assert forall|k: int| 0 <= k < self@.len() implies #[trigger] self@[k] =~= expanded(
                before,
                threads as nat,
                resources as nat,
            )[k] by {}
        }
    }

    /// What the first `threads` rows hold in column `j`.
    pub fn column_total(&self, j: usize, threads: usize) -> (total: usize)
        requires
            threads <= self@.len(),
            forall|i: int| 0 <= i < threads ==> j < (#[trigger] self@[i]).len(),
            column_sum(self@, j as int, threads as nat) <= usize::MAX,
        ensures
            total == column_sum(self@, j as int, threads as nat),
    {
        let mut total: usize = 0;
        let mut i: usize = 0;
        while i < threads
            invariant
                i <= threads <= self@.len(),
                forall|k: int| 0 <= k < threads ==> j < (#[trigger] self@[k]).len(),
                column_sum(self@, j as int, threads as nat) <= usize::MAX,
                total == column_sum(self@, j as int, i as nat),
            decreases threads - i,
        {
            proof {
                lemma_column_sum_grows(self@, j as int, (i + 1) as nat, threads as nat);
            }
            assert(j < self@[i as int].len());
            total = total + self.rows[i][j];
            i = i + 1;
        }
        total
    }
}

/// More rows sum up to no less.
proof fn lemma_column_sum_grows(table: Seq<Seq<nat>>, j: int, few: nat, many: nat)
    requires
        few <= many,
    ensures
        column_sum(table, j, few) <= column_sum(table, j, many),
    decreases many,
{
    if few < many {
        lemma_column_sum_grows(table, j, few, (many - 1) as nat);
    }
}

/// More rows count no less.
proof fn lemma_count_sum_grows(table: Seq<Seq<nat>>, j: int, few: nat, many: nat)
    requires
        few <= many,
    ensures
        count_sum(table, j, few) <= count_sum(table, j, many),
    decreases many,
{
    if few < many {
        lemma_count_sum_grows(table, j, few, (many - 1) as nat);
    }
}

/// Room for more rows and columns changes no sum.
pub proof fn lemma_expanded_sum(
    table: Seq<Seq<nat>>,
    threads: nat,
    resources: nat,
    j: int,
    rows: nat,
)
    requires
        0 <= j < resources,
        rows <= threads,
    ensures
        column_sum(expanded(table, threads, resources), j, rows) == count_sum(table, j, rows),
    decreases rows,
{
    if rows > 0 {
        lemma_expanded_sum(table, threads, resources, j, (rows - 1) as nat);
    }
}

} // verus!
