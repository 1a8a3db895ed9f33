//! The transition rule, stated over sets of live cells.

use vstd::prelude::*;
use crate::cell::{Cell, in_grid, lists, precedes, row_major};

verus! {

/// One for a true condition, zero for a false one.
pub open spec fn one_if(b: bool) -> nat {
    if b {
        1
    } else {
        0
    }
}

/// The site at row `r`, column `c` exists and is live. Sites with a negative
/// coordinate do not exist.
pub open spec fn occupied(live: Set<Cell>, r: int, c: int) -> bool {
    0 <= r <= usize::MAX && 0 <= c <= usize::MAX && live.contains((r as usize, c as usize))
}

/// The number of live cells among the eight Moore neighbours of `c`.
pub open spec fn neighbours(live: Set<Cell>, c: Cell) -> nat {
    let r = c.0 as int;
    let k = c.1 as int;
    one_if(occupied(live, r - 1, k - 1)) + one_if(occupied(live, r - 1, k)) + one_if(
        occupied(live, r - 1, k + 1),
    ) + one_if(occupied(live, r, k - 1)) + one_if(occupied(live, r, k + 1)) + one_if(
        occupied(live, r + 1, k - 1),
    ) + one_if(occupied(live, r + 1, k)) + one_if(occupied(live, r + 1, k + 1))
}

/// The two cells differ and touch, by a side or by a corner.
pub open spec fn adjacent(a: Cell, b: Cell) -> bool {
    &&& a != b
    &&& -1 <= a.0 - b.0 <= 1
    &&& -1 <= a.1 - b.1 <= 1
}

/// Every member of `live` lies inside the grid.
pub open spec fn contained(live: Set<Cell>, rows: usize, cols: usize) -> bool {
    forall|c: Cell| #[trigger] live.contains(c) ==> in_grid(c, rows, cols)
}

/// A draw lets a cell with two live neighbours live: three residues out of ten.
pub open spec fn favourable(draw: u8) -> bool {
    draw % 10 < 3
}

/// The cells of the grid whose fate a draw decides: those with exactly two
/// live neighbours.
pub open spec fn undecided(live: Set<Cell>, rows: usize, cols: usize) -> Set<Cell> {
    Set::new(|c: Cell| in_grid(c, rows, cols) && neighbours(live, c) == 2)
}

/// The undecided cells among the first `upto` columns of one row, left to right.
pub open spec fn row_pending(live: Set<Cell>, row: usize, upto: nat) -> Seq<Cell>
    decreases upto,
{
    if upto == 0 {
        Seq::empty()
    } else {
        let before = row_pending(live, row, (upto - 1) as nat);
        let c = (row, (upto - 1) as usize);
        if neighbours(live, c) == 2 {
            before.push(c)
        } else {
            before
        }
    }
}

/// The undecided cells of the first `upto` rows, row by row.
pub open spec fn pending_rows(live: Set<Cell>, upto: nat, cols: usize) -> Seq<Cell>
    decreases upto,
{
    if upto == 0 {
        Seq::empty()
    } else {
        pending_rows(live, (upto - 1) as nat, cols) + row_pending(
            live,
            (upto - 1) as usize,
            cols as nat,
        )
    }
}

/// The undecided cells in the order in which they take their draws: row by
/// row, and left to right within a row.
pub open spec fn pending_cells(live: Set<Cell>, rows: usize, cols: usize) -> Seq<Cell> {
    pending_rows(live, rows as nat, cols)
}

/// The cell is pending, a draw is there for it, and the draw is favourable.
/// The i-th pending cell takes the i-th draw; a cell left without a draw stays
/// dead.
pub open spec fn drawn_alive(pending: Seq<Cell>, draws: Seq<u8>, c: Cell) -> bool {
    exists|i: int|
        0 <= i < pending.len() && i < draws.len() && #[trigger] pending[i] == c && favourable(
            draws[i],
        )
}

/// The rule for one cell of the grid with `count` live neighbours.
pub open spec fn stays(count: nat, pending: Seq<Cell>, draws: Seq<u8>, c: Cell) -> bool {
    count == 3 || (count == 2 && drawn_alive(pending, draws, c))
}

/// The live set after the rule, before the perturbation: a cell of the grid
/// lives with three live neighbours, and with two where its draw is favourable.
/// What the cell was before does not count.
pub open spec fn settled(live: Set<Cell>, rows: usize, cols: usize, draws: Seq<u8>) -> Set<Cell> {
    Set::new(
        |c: Cell|
            in_grid(c, rows, cols) && stays(
                neighbours(live, c),
                pending_cells(live, rows, cols),
                draws,
                c,
            ),
    )
}

/// The live set after a toggle of `c`: a cell of the grid changes state, any
/// other coordinate changes nothing.
pub open spec fn toggled(live: Set<Cell>, rows: usize, cols: usize, c: Cell) -> Set<Cell> {
    if in_grid(c, rows, cols) {
        if live.contains(c) {
            live.remove(c)
        } else {
            live.insert(c)
        }
    } else {
        live
    }
}

/// The cell that a pair of raw draws points at: any row, and one of the three
/// leftmost columns.
pub open spec fn target(rows: usize, pick: Cell) -> Cell
    recommends
        rows > 0,
{
    ((pick.0 % rows) as usize, (pick.1 % 3) as usize)
}

/// The live set after the perturbation: one toggle per pick, in order. A grid
/// without rows has no cell to toggle.
pub open spec fn perturbed(live: Set<Cell>, rows: usize, cols: usize, picks: Seq<Cell>) -> Set<
    Cell,
>
    decreases picks.len(),
{
    if picks.len() == 0 || rows == 0 {
        live
    } else {
        toggled(
            perturbed(live, rows, cols, picks.drop_last()),
            rows,
            cols,
            target(rows, picks.last()),
        )
    }
}

/// One generation: the rule, then the perturbation.
pub open spec fn next_generation(
    live: Set<Cell>,
    rows: usize,
    cols: usize,
    draws: Seq<u8>,
    picks: Seq<Cell>,
) -> Set<Cell> {
    perturbed(settled(live, rows, cols, draws), rows, cols, picks)
}

/// Decides whether a draw is favourable.
pub fn favours(draw: u8) -> (r: bool)
    ensures
        r == favourable(draw),
{
    draw % 10 < 3
}

/// Decides the rule for one cell of the grid from the number of its live
/// neighbours and, where that number is two, from its draw.
pub fn lives_on(count: u8, draw: Option<u8>) -> (r: bool)
    ensures
        r == (count == 3 || (count == 2 && draw is Some && favourable(draw->Some_0))),
{
    if count == 3 {
        true
    } else if count == 2 {
        match draw {
            Some(d) => favours(d),
            None => false,
        }
    } else {
        false
    }
}

/// Reduces a pair of raw draws to the cell that it points at.
pub fn aim(rows: usize, pick: Cell) -> (c: Cell)
    requires
        rows > 0,
    ensures
        c == target(rows, pick),
        c.0 < rows,
        c.1 < 3,
{
    (pick.0 % rows, pick.1 % 3)
}

/// A cell that joins the live set adds one to the count of each cell that it
/// touches, and to no other.
pub proof fn lemma_neighbours_insert(live: Set<Cell>, s: Cell, c: Cell)
    requires
        !live.contains(s),
    ensures
        neighbours(live.insert(s), c) == neighbours(live, c) + one_if(adjacent(s, c)),
{
}

/// The pending cells of one row are listed left to right, each once.
pub proof fn lemma_row_pending(live: Set<Cell>, row: usize, upto: nat)
    requires
        upto <= usize::MAX,
    ensures
        row_major(row_pending(live, row, upto)),
        forall|c: Cell| #[trigger]
            row_pending(live, row, upto).contains(c) <==> (c.0 == row && c.1 < upto && neighbours(
                live,
                c,
            ) == 2),
    decreases upto,
{
    let s = row_pending(live, row, upto);
    if upto == 0 {
        assert forall|c: Cell| !(#[trigger] s.contains(c)) by {}
    } else {
        let before = row_pending(live, row, (upto - 1) as nat);
        lemma_row_pending(live, row, (upto - 1) as nat);
        let last = (row, (upto - 1) as usize);
        if neighbours(live, last) == 2 {
            assert(s == before.push(last));
            assert forall|i: int, j: int| 0 <= i < j < s.len() implies precedes(
                #[trigger] s[i],
                #[trigger] s[j],
            ) by {
                if j < before.len() {
                    assert(precedes(before[i], before[j]));
                } else {
                    assert(before.contains(before[i]));
                }
            }
            assert forall|c: Cell| #[trigger]
                s.contains(c) <==> (c.0 == row && c.1 < upto && neighbours(live, c) == 2) by {
                if s.contains(c) {
                    let i = choose|i: int| 0 <= i < s.len() && s[i] == c;
                    if i < before.len() {
                        assert(before.contains(c));
                    }
                }
                if c.0 == row && c.1 < upto && neighbours(live, c) == 2 {
                    if c.1 < upto - 1 {
                        assert(before.contains(c));
                        let i = choose|i: int| 0 <= i < before.len() && before[i] == c;
                        assert(s[i] == c);
                    } else {
                        assert(s[before.len() as int] == c);
                    }
                }
            }
        } else {
            assert(s == before);
        }
    }
}

/// The pending cells of the first rows are listed row by row, each once.
pub proof fn lemma_pending_rows(live: Set<Cell>, upto: nat, cols: usize)
    requires
        upto <= usize::MAX,
    ensures
        row_major(pending_rows(live, upto, cols)),
        forall|c: Cell| #[trigger]
            pending_rows(live, upto, cols).contains(c) <==> (c.0 < upto && c.1 < cols
                && neighbours(live, c) == 2),
    decreases upto,
{
    let s = pending_rows(live, upto, cols);
    if upto == 0 {
        assert forall|c: Cell| !(#[trigger] s.contains(c)) by {}
    } else {
        let a = pending_rows(live, (upto - 1) as nat, cols);
        let b = row_pending(live, (upto - 1) as usize, cols as nat);
        lemma_pending_rows(live, (upto - 1) as nat, cols);
        lemma_row_pending(live, (upto - 1) as usize, cols as nat);
        assert(s == a + b);
        assert forall|i: int, j: int| 0 <= i < j < s.len() implies precedes(
            #[trigger] s[i],
            #[trigger] s[j],
        ) by {
            if j < a.len() {
                assert(precedes(a[i], a[j]));
            } else if i >= a.len() {
                assert(precedes(b[i - a.len()], b[j - a.len()]));
            } else {
                assert(a.contains(a[i]));
                assert(b.contains(b[j - a.len()]));
            }
        }
        assert forall|c: Cell| #[trigger]
            s.contains(c) <==> (c.0 < upto && c.1 < cols && neighbours(live, c) == 2) by {
            if s.contains(c) {
                let i = choose|i: int| 0 <= i < s.len() && s[i] == c;
                if i < a.len() {
                    assert(a.contains(c));
                } else {
                    assert(b[i - a.len()] == c);
                    assert(b.contains(c));
                }
            }
            if c.0 < upto && c.1 < cols && neighbours(live, c) == 2 {
                if c.0 < upto - 1 {
                    assert(a.contains(c));
                    let i = choose|i: int| 0 <= i < a.len() && a[i] == c;
                    assert(s[i] == c);
                } else {
                    assert(b.contains(c));
                    let i = choose|i: int| 0 <= i < b.len() && b[i] == c;
                    assert(s[a.len() + i] == c);
                }
            }
        }
    }
}

/// The pending cells are the row-major listing of the undecided cells.
pub proof fn lemma_pending_lists(live: Set<Cell>, rows: usize, cols: usize)
    ensures
        lists(pending_cells(live, rows, cols), undecided(live, rows, cols)),
{
    lemma_pending_rows(live, rows as nat, cols);
}

} // verus!
