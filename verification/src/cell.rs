//! Cells of the lattice and the row-major order in which they are listed.

use vstd::prelude::*;

verus! {

/// A lattice site, written `(row, col)`.
pub type Cell = (usize, usize);

/// The cell lies inside a grid of `rows` by `cols`.
pub open spec fn in_grid(c: Cell, rows: usize, cols: usize) -> bool {
    c.0 < rows && c.1 < cols
}

/// `a` is met before `b` when the grid is read row by row, left to right.
pub open spec fn precedes(a: Cell, b: Cell) -> bool {
    a.0 < b.0 || (a.0 == b.0 && a.1 < b.1)
}

/// The sequence is strictly increasing in row-major order.
pub open spec fn row_major(s: Seq<Cell>) -> bool {
    forall|i: int, j: int| 0 <= i < j < s.len() ==> precedes(#[trigger] s[i], #[trigger] s[j])
}

/// `s` lists the members of `set`, each once, in row-major order.
pub open spec fn lists(s: Seq<Cell>, set: Set<Cell>) -> bool {
    &&& row_major(s)
    &&& forall|c: Cell| #[trigger] s.contains(c) <==> set.contains(c)
}

/// Decides the row-major order of two cells.
pub fn comes_before(a: Cell, b: Cell) -> (r: bool)
    ensures
        r == precedes(a, b),
{
    a.0 < b.0 || (a.0 == b.0 && a.1 < b.1)
}

/// A row-major sequence holds no cell twice.
pub proof fn lemma_row_major_distinct(s: Seq<Cell>)
    requires
        row_major(s),
    ensures
        s.no_duplicates(),
{
    assert forall|i: int, j: int| 0 <= i < s.len() && 0 <= j < s.len() && i != j implies s[i]
        != s[j] by {
        if i < j {
            assert(precedes(s[i], s[j]));
        } else {
            assert(precedes(s[j], s[i]));
        }
    }
}

/// A set of cells has at most one row-major listing.
pub proof fn lemma_listing_unique(s: Seq<Cell>, t: Seq<Cell>, set: Set<Cell>)
    requires
        lists(s, set),
        lists(t, set),
    ensures
        s == t,
    decreases s.len(),
{
    if s.len() == 0 {
        if t.len() > 0 {
            assert(t.contains(t[0]));
            assert(s.contains(t[0]));
        }
        assert(s =~= t);
    } else {
        assert(s.contains(s[0]));
        assert(t.contains(s[0]));
        let k = choose|k: int| 0 <= k < t.len() && t[k] == s[0];
        assert(t.contains(t[0]));
        assert(s.contains(t[0]));
        let m = choose|m: int| 0 <= m < s.len() && s[m] == t[0];
        if k > 0 {
            assert(precedes(t[0], t[k]));
        }
        if m > 0 {
            assert(precedes(s[0], s[m]));
        }
        assert(s[0] == t[0]);
        let rest = set.remove(s[0]);
        let s_rest = s.drop_first();
        let t_rest = t.drop_first();
        lemma_drop_first_lists(s, set);
        lemma_drop_first_lists(t, set);
        lemma_listing_unique(s_rest, t_rest, rest);
        assert(s =~= seq![s[0]] + s_rest);
        assert(t =~= seq![t[0]] + t_rest);
    }
}

/// Without its first cell, a listing lists the set without that cell.
pub proof fn lemma_drop_first_lists(s: Seq<Cell>, set: Set<Cell>)
    requires
        lists(s, set),
        s.len() > 0,
    ensures
        lists(s.drop_first(), set.remove(s[0])),
{
    let s_rest = s.drop_first();
    assert forall|i: int, j: int| 0 <= i < j < s_rest.len() implies precedes(
        #[trigger] s_rest[i],
        #[trigger] s_rest[j],
    ) by {
        assert(precedes(s[i + 1], s[j + 1]));
    }
    assert forall|c: Cell| #[trigger] s_rest.contains(c) <==> set.remove(s[0]).contains(c) by {
        if s_rest.contains(c) {
            let i = choose|i: int| 0 <= i < s_rest.len() && s_rest[i] == c;
            assert(s[i + 1] == c);
            assert(precedes(s[0], s[i + 1]));
            assert(s.contains(c));
        }
        if set.remove(s[0]).contains(c) {
            assert(s.contains(c));
            let i = choose|i: int| 0 <= i < s.len() && s[i] == c;
            assert(i > 0);
            assert(s_rest[i - 1] == c);
        }
    }
}

} // verus!
