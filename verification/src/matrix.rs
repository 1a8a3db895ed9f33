//! The grid engine: the set of live cells of a bounded grid, kept sparse.

use vstd::prelude::*;
use crate::cell::{Cell, in_grid, lists, precedes, row_major, lemma_row_major_distinct};
use crate::order::{position, lemma_place_found, lemma_insert_at_place, lemma_remove_at};
use crate::random::{random_u8, random_usize};
use crate::rule::{
    aim, contained, drawn_alive, favourable, lives_on, neighbours, next_generation, pending_cells,
    perturbed, settled, stays, toggled, undecided, lemma_neighbours_insert, lemma_pending_lists,
};
use crate::tally::Tally;

verus! {

/// A grid of `rows` by `cols` cells, of which only the live ones are stored.
/// The pixel `scale` is carried for whoever paints the grid; no operation of
/// the engine reads it.
pub struct Matrix {
    rows: usize,
    cols: usize,
    scale: usize,
    cells: Vec<Cell>,
}

impl View for Matrix {
    type V = Set<Cell>;

    /// The set of live cells.
    closed spec fn view(&self) -> Set<Cell> {
        self.cells@.to_set()
    }
}

impl Matrix {
    /// The live cells are stored in row-major order, each once, and all of
    /// them lie inside the grid.
    pub closed spec fn wf(&self) -> bool {
        &&& row_major(self.cells@)
        &&& forall|i: int|
            0 <= i < self.cells@.len() ==> in_grid(#[trigger] self.cells@[i], self.rows, self.cols)
    }

    /// The number of rows.
    pub closed spec fn spec_rows(&self) -> usize {
        self.rows
    }

    /// The number of columns.
    pub closed spec fn spec_cols(&self) -> usize {
        self.cols
    }

    /// The side of a cell on screen, in pixels.
    pub closed spec fn spec_scale(&self) -> usize {
        self.scale
    }

    /// Both matrices have the same dimensions and the same scale.
    pub open spec fn same_frame(&self, other: &Matrix) -> bool {
        &&& self.spec_rows() == other.spec_rows()
        &&& self.spec_cols() == other.spec_cols()
        &&& self.spec_scale() == other.spec_scale()
    }

    /// In every well-formed matrix the live set is finite and lies inside the
    /// grid.
    pub proof fn lemma_contained(&self)
        requires
            self.wf(),
        ensures
            contained(self@, self.spec_rows(), self.spec_cols()),
            self@.finite(),
    {
        vstd::seq_lib::seq_to_set_is_finite(self.cells@);
        assert forall|c: Cell| #[trigger] self@.contains(c) implies in_grid(
            c,
            self.rows,
            self.cols,
        ) by {
            let i = choose|i: int| 0 <= i < self.cells@.len() && self.cells@[i] == c;
            assert(in_grid(self.cells@[i], self.rows, self.cols));
        }
    }

    /// An empty grid of `size.0` rows and `size.1` columns, painted at
    /// `size.2` pixels per cell.
    pub fn new(size: (usize, usize, usize)) -> (m: Matrix)
        ensures
            m.wf(),
            m.spec_rows() == size.0,
            m.spec_cols() == size.1,
            m.spec_scale() == size.2,
            m@ == Set::<Cell>::empty(),
    {
        let m = Matrix { rows: size.0, cols: size.1, scale: size.2, cells: Vec::new() };
        assert(m@ =~= Set::<Cell>::empty());
        m
    }

    /// The dimensions, rows first.
    pub fn size(&self) -> (s: (usize, usize))
        ensures
            s == (self.spec_rows(), self.spec_cols()),
    {
        (self.rows, self.cols)
    }

    /// The number of rows.
    #[verifier::when_used_as_spec(spec_rows)]
    pub fn rows(&self) -> (r: usize)
        ensures
            r == self.spec_rows(),
    {
        self.rows
    }

    /// The number of columns.
    #[verifier::when_used_as_spec(spec_cols)]
    pub fn cols(&self) -> (c: usize)
        ensures
            c == self.spec_cols(),
    {
        self.cols
    }

    /// The side of a cell on screen, in pixels.
    #[verifier::when_used_as_spec(spec_scale)]
    pub fn scale(&self) -> (s: usize)
        ensures
            s == self.spec_scale(),
    {
        self.scale
    }

    /// The live cells, each once, in row-major order.
    pub fn live_cells(&self) -> (v: &Vec<Cell>)
        requires
            self.wf(),
        ensures
            lists(v@, self@),
            v@.no_duplicates(),
    {
        proof {
            lemma_row_major_distinct(self.cells@);
        }
        &self.cells
    }

    /// Toggles the cell at `(row, col)`: a live cell dies, a dead one comes to
    /// life. A coordinate outside the grid is passed over.
    pub fn change_state(&mut self, row: usize, col: usize)
        requires
            old(self).wf(),
        ensures
            final(self).wf(),
            final(self).same_frame(old(self)),
            final(self)@ == toggled(old(self)@, old(self).rows(), old(self).cols(), (row, col)),
    {
        if row >= self.rows || col >= self.cols {
            return ;
        }
        let c: Cell = (row, col);
        let p = position(&self.cells, c);
        let ghost before = self.cells@;
        proof {
            lemma_place_found(before, c, p as int);
        }
        if p < self.cells.len() && self.cells[p].0 == row && self.cells[p].1 == col {
            self.cells.remove(p);
            proof {
                lemma_remove_at(before, p as int);
                assert(self.cells@.to_set() =~= before.to_set().remove(c));
            }
        } else {
            self.cells.insert(p, c);
            proof {
                lemma_insert_at_place(before, c, p as int);
                assert(self.cells@.to_set() =~= before.to_set().insert(c));
                assert forall|i: int| 0 <= i < self.cells@.len() implies in_grid(
                    #[trigger] self.cells@[i],
                    self.rows,
                    self.cols,
                ) by {
                    if i < p {
                        assert(self.cells@[i] == before[i]);
                    } else if i > p {
                        assert(self.cells@[i] == before[i - 1]);
                    }
                }
            }
        }
    }

    /// Counts, for each cell of the grid, its live neighbours. Only the
    /// neighbourhoods of live cells are visited.
    pub fn neighbour_counts(&self) -> (t: Tally)
        requires
            self.wf(),
        ensures
            t.wf(),
            t.counts_neighbours(self@, self.rows(), self.cols()),
    {
        let mut t = Tally::new();
        let n: usize = self.cells.len();
        let mut i: usize = 0;
        proof {
            lemma_row_major_distinct(self.cells@);
            assert(self.cells@.take(0).to_set() =~= Set::<Cell>::empty());
        }
        while i < n
            invariant
                self.wf(),
                self.cells@.no_duplicates(),
                i <= n == self.cells@.len(),
                t.wf(),
                t.counts_neighbours(self.cells@.take(i as int).to_set(), self.rows, self.cols),
            decreases n - i,
        {
            let c: Cell = self.cells[i];
            let ghost front = self.cells@.take(i as int);
            let ghost wider = self.cells@.take(i + 1);
            let ghost seen = front.to_set();
            let ghost grown = wider.to_set();
            let ghost before = t;
            t.bump_around(self.rows, self.cols, c);
            proof {
                if seen.contains(c) {
                    let j = choose|j: int| 0 <= j < front.len() && front[j] == c;
                    assert(self.cells@[j] == self.cells@[i as int]);
                }
                assert forall|x: Cell| grown.contains(x) <==> seen.insert(c).contains(x) by {
                    if grown.contains(x) {
                        let j = choose|j: int| 0 <= j < wider.len() && wider[j] == x;
                        if j < i {
                            assert(front[j] == x);
                        }
                    }
                    if seen.contains(x) {
                        let j = choose|j: int| 0 <= j < front.len() && front[j] == x;
                        assert(wider[j] == x);
                    }
                    if x == c {
                        assert(wider[i as int] == x);
                    }
                }
                assert(grown =~= seen.insert(c));
                assert forall|x: Cell| #[trigger]
                    t.count_of(x) == if in_grid(x, self.rows, self.cols) {
                        neighbours(grown, x)
                    } else {
                        0
                    } by {
                    lemma_neighbours_insert(seen, c, x);
                    assert(before.count_of(x) == if in_grid(x, self.rows, self.cols) {
                        neighbours(seen, x)
                    } else {
                        0
                    });
                }
            }
            i += 1;
        }
        proof {
            assert(self.cells@.take(n as int) =~= self.cells@);
        }
        t
    }

    /// The cells whose fate the next generation leaves to a draw, in the
    /// order in which they take their draws.
    pub fn pending(&self) -> (v: Vec<Cell>)
        requires
            self.wf(),
        ensures
            v@ == pending_cells(self@, self.rows(), self.cols()),
            lists(v@, undecided(self@, self.rows(), self.cols())),
    {
        let t = self.neighbour_counts();
        proof {
            t.lemma_twos_pending(self@, self.rows, self.cols);
            lemma_pending_lists(self@, self.rows, self.cols);
        }
        t.pending()
    }

    /// Replaces the live set by its next generation, from counts taken
    /// beforehand.
    fn settle(&mut self, tally: &Tally, draws: &Vec<u8>, picks: &Vec<Cell>)
        requires
            old(self).wf(),
            tally.wf(),
            tally.counts_neighbours(old(self)@, old(self).rows(), old(self).cols()),
        ensures
            final(self).wf(),
            final(self).same_frame(old(self)),
            final(self)@ == next_generation(
                old(self)@,
                old(self).rows(),
                old(self).cols(),
                draws@,
                picks@,
            ),
    {
        let ghost live = self@;
        let ghost pend = pending_cells(live, self.rows, self.cols);
        let n: usize = tally.cells.len();
        proof {
            tally.lemma_twos_pending(live, self.rows, self.cols);
            tally.lemma_twos(n as nat);
            lemma_row_major_distinct(pend);
            lemma_pending_lists(live, self.rows, self.cols);
        }
        let mut next: Vec<Cell> = Vec::new();
        let mut used: usize = 0;
        let mut i: usize = 0;
        while i < n
            invariant
                tally.wf(),
                tally.counts_neighbours(live, self.rows, self.cols),
                i <= n == tally.cells@.len(),
                pend == tally.twos(n as nat),
                pend.no_duplicates(),
                used == tally.twos(i as nat).len(),
                used <= i,
                row_major(next@),
                forall|a: int, j: int|
                    0 <= a < next@.len() && i <= j < n ==> precedes(
                        #[trigger] next@[a],
                        #[trigger] tally.cells@[j],
                    ),
                forall|a: int|
                    0 <= a < next@.len() ==> in_grid(#[trigger] next@[a], self.rows, self.cols),
                forall|x: Cell| #[trigger]
                    next@.contains(x) <==> exists|j: int|
                        0 <= j < i && #[trigger] tally.cells@[j] == x && stays(
                            tally.counts@[j] as nat,
                            pend,
                            draws@,
                            x,
                        ),
            decreases n - i,
        {
            let c: Cell = tally.cells[i];
            let count: u8 = tally.counts[i];
            let ghost was = next@;
            proof {
                tally.lemma_twos((i + 1) as nat);
                tally.lemma_twos_prefix((i + 1) as nat, n as nat);
                tally.lemma_count_at(i as int);
            }
            let draw: Option<u8> = if count == 2 && used < draws.len() {
                Some(draws[used])
            } else {
                None
            };
            let alive: bool = lives_on(count, draw);
            proof {
                if count == 2 {
                    assert(tally.twos((i + 1) as nat) == tally.twos(i as nat).push(c));
                    assert(pend[used as int] == c);
                    if drawn_alive(pend, draws@, c) {
                        let a = choose|a: int|
                            0 <= a < pend.len() && a < draws@.len() && #[trigger] pend[a] == c
                                && favourable(draws@[a]);
                        assert(a == used);
                    }
                    if used < draws@.len() && favourable(draws@[used as int]) {
                        assert(pend[used as int] == c);
                        assert(drawn_alive(pend, draws@, c));
                    }
                }
                assert(alive == stays(count as nat, pend, draws@, c));
            }
            if alive {
                next.push(c);
            }
            if count == 2 {
                used += 1;
            }
            proof {
                let now = next@;
                assert forall|a: int, b: int| 0 <= a < b < now.len() implies precedes(
                    #[trigger] now[a],
                    #[trigger] now[b],
                ) by {
                    if b < was.len() {
                        assert(precedes(was[a], was[b]));
                    } else {
                        assert(precedes(was[a], tally.cells@[i as int]));
                    }
                }
                assert forall|a: int, j: int|
                    0 <= a < now.len() && i + 1 <= j < n implies precedes(
                    #[trigger] now[a],
                    #[trigger] tally.cells@[j],
                ) by {
                    if a < was.len() {
                        assert(precedes(was[a], tally.cells@[j]));
                    } else {
                        assert(precedes(tally.cells@[i as int], tally.cells@[j]));
                    }
                }
                assert forall|x: Cell| #[trigger]
                    now.contains(x) <==> exists|j: int|
                        0 <= j < i + 1 && #[trigger] tally.cells@[j] == x && stays(
                            tally.counts@[j] as nat,
                            pend,
                            draws@,
                            x,
                        ) by {
                    if now.contains(x) {
                        let a = choose|a: int| 0 <= a < now.len() && now[a] == x;
                        if a < was.len() {
                            assert(was.contains(x));
                            let j = choose|j: int|
                                0 <= j < i && #[trigger] tally.cells@[j] == x && stays(
                                    tally.counts@[j] as nat,
                                    pend,
                                    draws@,
                                    x,
                                );
                            assert(0 <= j < i + 1 && tally.cells@[j] == x);
                        } else {
                            assert(tally.cells@[i as int] == x);
                        }
                    }
                    if exists|j: int|
                        0 <= j < i + 1 && #[trigger] tally.cells@[j] == x && stays(
                            tally.counts@[j] as nat,
                            pend,
                            draws@,
                            x,
                        ) {
                        let j = choose|j: int|
                            0 <= j < i + 1 && #[trigger] tally.cells@[j] == x && stays(
                                tally.counts@[j] as nat,
                                pend,
                                draws@,
                                x,
                            );
                        if j < i {
                            assert(was.contains(x));
                            let a = choose|a: int| 0 <= a < was.len() && was[a] == x;
                            assert(now[a] == x);
                        } else {
                            assert(now[was.len() as int] == x);
                        }
                    }
                }
            }
            i += 1;
        }
        self.cells = next;
        let ghost ruled = settled(live, self.rows, self.cols, draws@);
        proof {
            assert forall|x: Cell| self@.contains(x) <==> ruled.contains(x) by {
                if self@.contains(x) {
                    let j = choose|j: int|
                        0 <= j < n && #[trigger] tally.cells@[j] == x && stays(
                            tally.counts@[j] as nat,
                            pend,
                            draws@,
                            x,
                        );
                    tally.lemma_count_at(j);
                    assert(tally.count_of(x) >= 1);
                }
                if ruled.contains(x) {
                    if neighbours(live, x) == 2 {
                        assert(drawn_alive(pend, draws@, x));
                    }
                    assert(tally.count_of(x) == neighbours(live, x));
                    let j = tally.cells@.index_of(x);
                    assert(0 <= j < n && tally.cells@[j] == x);
                    assert(self.cells@.contains(x));
                }
            }
            assert(self@ =~= ruled);
            assert(picks@.take(0) =~= Seq::<Cell>::empty());
        }
        let m: usize = picks.len();
        let mut k: usize = 0;
        while k < m
            invariant
                self.wf(),
                self.same_frame(old(self)),
                k <= m == picks@.len(),
                self@ == perturbed(ruled, self.rows, self.cols, picks@.take(k as int)),
            decreases m - k,
        {
            proof {
                assert(picks@.take(k + 1).drop_last() =~= picks@.take(k as int));
                assert(picks@.take(k + 1).last() == picks@[k as int]);
            }
            if self.rows > 0 {
                let c: Cell = aim(self.rows, picks[k]);
                self.change_state(c.0, c.1);
            }
            k += 1;
        }
        proof {
            assert(picks@.take(m as int) =~= picks@);
        }
    }

    /// Advances one generation with the given randomness. The i-th pending
    /// cell lives where `draws[i]` is there and favourable; then each pair of
    /// `picks` toggles the cell that it points at.
    pub fn advance_with(&mut self, draws: &Vec<u8>, picks: &Vec<Cell>)
        requires
            old(self).wf(),
        ensures
            final(self).wf(),
            final(self).same_frame(old(self)),
            final(self)@ == next_generation(
                old(self)@,
                old(self).rows(),
                old(self).cols(),
                draws@,
                picks@,
            ),
    {
        let tally = self.neighbour_counts();
        self.settle(&tally, draws, picks);
    }

    /// Advances one generation with randomness of its own: one draw for each
    /// pending cell, then up to 255 toggles near the left edge. Whatever is
    /// drawn, the result is a next generation of the live set.
    pub fn update(&mut self)
        requires
            old(self).wf(),
        ensures
            final(self).wf(),
            final(self).same_frame(old(self)),
            exists|draws: Seq<u8>, picks: Seq<Cell>|
                picks.len() <= 255 && final(self)@ == #[trigger] next_generation(
                    old(self)@,
                    old(self).rows(),
                    old(self).cols(),
                    draws,
                    picks,
                ),
    {
        let tally = self.neighbour_counts();
        let need: usize = tally.pending().len();
        let mut draws: Vec<u8> = Vec::new();
        let mut i: usize = 0;
        while i < need
            invariant
                i <= need,
            decreases need - i,
        {
            draws.push(random_u8());
            i += 1;
        }
        let toggles: u8 = random_u8();
        let mut picks: Vec<Cell> = Vec::new();
        let mut k: u8 = 0;
        while k < toggles
            invariant
                k <= toggles,
                picks@.len() == k,
            decreases toggles - k,
        {
            let x: usize = random_usize();
            let y: usize = random_usize();
            picks.push((x, y));
            k += 1;
        }
        self.settle(&tally, &draws, &picks);
    }
}

} // verus!
