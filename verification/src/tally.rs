//! A sparse table of neighbour counts: one entry for each cell that has been
//! counted at least once, kept in row-major order.

use vstd::prelude::*;
use crate::cell::{Cell, in_grid, lists, precedes, row_major, lemma_listing_unique, lemma_row_major_distinct};
use crate::order::{position, lemma_place_found, lemma_insert_at_place};
use crate::rule::{adjacent, neighbours, one_if, pending_cells, undecided, lemma_pending_lists};

verus! {

/// Cells with their counts, in two sequences of equal length.
pub struct Tally {
    pub cells: Vec<Cell>,
    pub counts: Vec<u8>,
}

impl Tally {
    /// The cells are in row-major order and each has a count of at least one.
    pub open spec fn wf(&self) -> bool {
        &&& self.cells@.len() == self.counts@.len()
        &&& row_major(self.cells@)
        &&& forall|i: int| 0 <= i < self.counts@.len() ==> #[trigger] self.counts@[i] >= 1
    }

    /// The count of `c`: zero for a cell without an entry.
    pub open spec fn count_of(&self, c: Cell) -> nat {
        if self.cells@.contains(c) {
            self.counts@[self.cells@.index_of(c)] as nat
        } else {
            0
        }
    }

    /// An entry's count is the count of its cell.
    pub proof fn lemma_count_at(&self, i: int)
        requires
            self.wf(),
            0 <= i < self.cells@.len(),
        ensures
            self.cells@.contains(self.cells@[i]),
            self.count_of(self.cells@[i]) == self.counts@[i],
    {
        lemma_row_major_distinct(self.cells@);
        let c = self.cells@[i];
        assert(self.cells@.contains(c));
        let j = self.cells@.index_of(c);
        assert(0 <= j < self.cells@.len() && self.cells@[j] == c);
    }

    /// The empty table: every count is zero.
    pub fn new() -> (t: Tally)
        ensures
            t.wf(),
            t.cells@.len() == 0,
            forall|c: Cell| t.count_of(c) == 0,
    {
        Tally { cells: Vec::new(), counts: Vec::new() }
    }

    /// Adds one to the count of `c`.
    pub fn bump(&mut self, c: Cell)
        requires
            old(self).wf(),
            old(self).count_of(c) < 255,
        ensures
            final(self).wf(),
            forall|x: Cell| #[trigger]
                final(self).count_of(x) == old(self).count_of(x) + one_if(x == c),
    {
        let p = position(&self.cells, c);
        let ghost before = *self;
        proof {
            lemma_place_found(before.cells@, c, p as int);
        }
        if p < self.cells.len() && self.cells[p].0 == c.0 && self.cells[p].1 == c.1 {
            proof {
                before.lemma_count_at(p as int);
            }
            let n: u8 = self.counts[p];
            self.counts[p] = n + 1;
            proof {
                let after = *self;
                assert(after.cells@ == before.cells@);
                assert forall|x: Cell| #[trigger]
                    after.count_of(x) == before.count_of(x) + one_if(x == c) by {
                    if before.cells@.contains(x) {
                        let i = before.cells@.index_of(x);
                        before.lemma_count_at(i);
                        if x != c {
                            assert(i != p);
                        }
                    }
                }
            }
        } else {
            self.cells.insert(p, c);
            self.counts.insert(p, 1);
            proof {
                let after = *self;
                lemma_insert_at_place(before.cells@, c, p as int);
                before.counts@.insert_ensures(p as int, 1u8);
                assert(after.wf());
                assert forall|x: Cell| #[trigger]
                    after.count_of(x) == before.count_of(x) + one_if(x == c) by {
                    if x == c {
                        after.lemma_count_at(p as int);
                    } else if before.cells@.contains(x) {
                        let i = before.cells@.index_of(x);
                        before.lemma_count_at(i);
                        if i < p {
                            assert(after.cells@[i] == x);
                            after.lemma_count_at(i);
                        } else {
                            assert(after.cells@[i + 1] == x);
                            after.lemma_count_at(i + 1);
                        }
                    }
                }
            }
        }
    }

    /// Adds one to the count of each cell of the grid that touches `c`.
    pub fn bump_around(&mut self, rows: usize, cols: usize, c: Cell)
        requires
            old(self).wf(),
            in_grid(c, rows, cols),
            forall|x: Cell| old(self).count_of(x) <= 8,
        ensures
            final(self).wf(),
            forall|x: Cell| #[trigger]
                final(self).count_of(x) == old(self).count_of(x) + one_if(
                    in_grid(x, rows, cols) && adjacent(c, x),
                ),
    {
        let r: usize = c.0;
        let k: usize = c.1;
        let ghost start = *self;
        if r > 0 {
            if k > 0 {
                self.bump((r - 1, k - 1));
            }
            self.bump((r - 1, k));
            if k + 1 < cols {
                self.bump((r - 1, k + 1));
            }
        }
        let ghost above = *self;
        assert forall|x: Cell| #[trigger]
            above.count_of(x) == start.count_of(x) + one_if(
                in_grid(x, rows, cols) && adjacent(c, x) && x.0 + 1 == r,
            ) by {}
        if k > 0 {
            self.bump((r, k - 1));
        }
        if k + 1 < cols {
            self.bump((r, k + 1));
        }
        let ghost beside = *self;
        assert forall|x: Cell| #[trigger]
            beside.count_of(x) == start.count_of(x) + one_if(
                in_grid(x, rows, cols) && adjacent(c, x) && x.0 <= r,
            ) by {}
        if r + 1 < rows {
            if k > 0 {
                self.bump((r + 1, k - 1));
            }
            self.bump((r + 1, k));
            if k + 1 < cols {
                self.bump((r + 1, k + 1));
            }
        }
    }

    /// The counts are those of `live` on a grid of `rows` by `cols`: each cell
    /// of the grid has the number of its live neighbours, and no other
    /// coordinate has a count.
    pub open spec fn counts_neighbours(&self, live: Set<Cell>, rows: usize, cols: usize) -> bool {
        forall|x: Cell| #[trigger]
            self.count_of(x) == if in_grid(x, rows, cols) {
                neighbours(live, x)
            } else {
                0
            }
    }

    /// The cells among the first `upto` entries whose count is two, in order.
    pub open spec fn twos(&self, upto: nat) -> Seq<Cell>
        decreases upto,
    {
        if upto == 0 {
            Seq::empty()
        } else {
            let before = self.twos((upto - 1) as nat);
            if self.counts@[upto - 1] == 2 {
                before.push(self.cells@[upto - 1])
            } else {
                before
            }
        }
    }

    /// The cells with a count of two come out in row-major order, each in
    /// front of every entry that is still to be read.
    pub proof fn lemma_twos(&self, upto: nat)
        requires
            self.wf(),
            upto <= self.cells@.len(),
        ensures
            self.twos(upto).len() <= upto,
            row_major(self.twos(upto)),
            forall|a: int, j: int|
                0 <= a < self.twos(upto).len() && upto <= j < self.cells@.len() ==> precedes(
                    #[trigger] self.twos(upto)[a],
                    #[trigger] self.cells@[j],
                ),
            forall|x: Cell| #[trigger]
                self.twos(upto).contains(x) <==> exists|j: int|
                    0 <= j < upto && #[trigger] self.cells@[j] == x && self.counts@[j] == 2,
        decreases upto,
    {
        let s = self.twos(upto);
        if upto == 0 {
            assert forall|x: Cell| !(#[trigger] s.contains(x)) by {}
        } else {
            let before = self.twos((upto - 1) as nat);
            self.lemma_twos((upto - 1) as nat);
            let last = self.cells@[upto - 1];
            assert forall|a: int, j: int|
                0 <= a < s.len() && upto <= j < self.cells@.len() implies precedes(
                #[trigger] s[a],
                #[trigger] self.cells@[j],
            ) by {
                if a < before.len() {
                    assert(precedes(before[a], self.cells@[j]));
                } else {
                    assert(precedes(self.cells@[upto - 1], self.cells@[j]));
                }
            }
            assert forall|a: int, b: int| 0 <= a < b < s.len() implies precedes(
                #[trigger] s[a],
                #[trigger] s[b],
            ) by {
                if b < before.len() {
                    assert(precedes(before[a], before[b]));
                } else {
                    assert(precedes(before[a], self.cells@[upto - 1]));
                }
            }
            assert forall|x: Cell| #[trigger]
                s.contains(x) <==> exists|j: int|
                    0 <= j < upto && #[trigger] self.cells@[j] == x && self.counts@[j] == 2 by {
                if s.contains(x) {
                    let a = choose|a: int| 0 <= a < s.len() && s[a] == x;
                    if a < before.len() {
                        assert(before.contains(x));
                        let j = choose|j: int|
                            0 <= j < upto - 1 && #[trigger] self.cells@[j] == x
                                && self.counts@[j] == 2;
                        assert(0 <= j < upto && self.cells@[j] == x && self.counts@[j] == 2);
                    } else {
                        assert(self.cells@[upto - 1] == x && self.counts@[upto - 1] == 2);
                    }
                }
                if exists|j: int|
                    0 <= j < upto && #[trigger] self.cells@[j] == x && self.counts@[j] == 2 {
                    let j = choose|j: int|
                        0 <= j < upto && #[trigger] self.cells@[j] == x && self.counts@[j] == 2;
                    if j < upto - 1 {
                        assert(before.contains(x));
                        let a = choose|a: int| 0 <= a < before.len() && before[a] == x;
                        assert(s[a] == x);
                    } else {
                        assert(s[before.len() as int] == x);
                    }
                }
            }
        }
    }

    /// What has come out after `i` entries stays in front of what comes later.
    pub proof fn lemma_twos_prefix(&self, i: nat, n: nat)
        requires
            i <= n,
        ensures
            self.twos(i).len() <= self.twos(n).len(),
            forall|a: int| 0 <= a < self.twos(i).len() ==> self.twos(n)[a] == self.twos(i)[a],
        decreases n,
    {
        if i < n {
            self.lemma_twos_prefix(i, (n - 1) as nat);
        }
    }

    /// Where the counts are those of `live`, the cells with a count of two are
    /// the pending cells of `live`.
    pub proof fn lemma_twos_pending(&self, live: Set<Cell>, rows: usize, cols: usize)
        requires
            self.wf(),
            self.counts_neighbours(live, rows, cols),
        ensures
            self.twos(self.cells@.len()) == pending_cells(live, rows, cols),
    {
        let s = self.twos(self.cells@.len());
        let u = undecided(live, rows, cols);
        self.lemma_twos(self.cells@.len());
        assert forall|x: Cell| #[trigger] s.contains(x) <==> u.contains(x) by {
            if s.contains(x) {
                let j = choose|j: int|
                    0 <= j < self.cells@.len() && #[trigger] self.cells@[j] == x
                        && self.counts@[j] == 2;
                self.lemma_count_at(j);
                assert(self.count_of(x) == 2);
            }
            if u.contains(x) {
                assert(self.count_of(x) == 2);
                let j = self.cells@.index_of(x);
                assert(0 <= j < self.cells@.len() && self.cells@[j] == x && self.counts@[j] == 2);
            }
        }
        lemma_pending_lists(live, rows, cols);
        lemma_listing_unique(s, pending_cells(live, rows, cols), u);
    }

    /// The cells whose count is two, in row-major order.
    pub fn pending(&self) -> (v: Vec<Cell>)
        requires
            self.wf(),
        ensures
            v@ == self.twos(self.cells@.len()),
    {
        let mut v: Vec<Cell> = Vec::new();
        let n: usize = self.cells.len();
        let mut i: usize = 0;
        while i < n
            invariant
                self.wf(),
                i <= n == self.cells@.len(),
                v@ == self.twos(i as nat),
            decreases n - i,
        {
            if self.counts[i] == 2 {
                v.push(self.cells[i]);
            }
            i += 1;
        }
        v
    }
}

} // verus!
